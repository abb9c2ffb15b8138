//! RESP values as they are held in memory, and the codec between them and bytes.
use vstd::prelude::*;
use vstd::slice::{slice_subrange, slice_to_vec};
use vstd::string::StringSliceAdditionalSpecFns;

use crate::errors::Error;
use crate::resp::{
    crlf, decimal, encodable, frame_bytes, header, int_of, items_bytes, lemma_encodable_array,
    lemma_items_bytes_push, lemma_nil_free_array, lemma_parse_frame, lemma_prefix_incomplete,
    line_end, nil_free, parse_array, parse_at, parse_bulk, parse_error_line, parse_integer,
    parse_items, parse_number, parse_simple, parse_text, prepend, signed_of, valid_text,
    wire_sized, Frame, Step,
};

verus! {

broadcast use {vstd::seq::group_seq_axioms, vstd::std_specs::vec::group_vec_axioms};

/// Relies on itoa::Buffer::format: the base-10 text of the value, without
/// leading zeros, with `-` in front when it is negative.
#[verifier::external_body]
fn decimal_text(v: i128) -> (r: Vec<u8>)
    ensures
        r@ == decimal(v as int),
{
    itoa::Buffer::new().format(v).as_bytes().to_vec()
}

/// Relies on btoi::btoi for i64: an optional sign and at least one decimal
/// digit, refused when a byte is not a digit or the value does not fit.
#[verifier::external_body]
fn parse_int(b: &[u8]) -> (r: Option<i64>)
    ensures
        r matches Some(v) ==> signed_of(b@) == Some(v as int),
        r is None ==> signed_of(b@) is None,
{
    btoi::btoi::<i64>(b).ok()
}

/// Relies on bytestring::ByteString::try_from(&[u8]): it accepts exactly
/// the byte sequences that are valid UTF-8.
#[verifier::external_body]
fn is_utf8(b: &[u8]) -> (r: bool)
    ensures
        r == vstd::utf8::valid_utf8(b@),
{
    bytestring::ByteString::try_from(b).is_ok()
}

/// A bulk string: a sequence of bytes that the server stores as it is.
#[derive(Debug, Clone, PartialEq, Eq, Hash)]
pub struct BulkString(Vec<u8>);

impl View for BulkString {
    type V = Seq<u8>;

    closed spec fn view(&self) -> Seq<u8> {
        self.0@
    }
}

impl BulkString {
    /// The bytes of a text.
    pub fn from_static(data: &'static str) -> (r: Self)
        ensures
            r@ == data.spec_bytes(),
    {
        BulkString(slice_to_vec(data.as_bytes()))
    }

    /// A copy of a byte slice.
    pub fn from_bstatic(data: &'static [u8]) -> (r: Self)
        ensures
            r@ == data@,
    {
        BulkString(slice_to_vec(data))
    }

    /// The bytes of a text.
    pub fn from_str(data: &str) -> (r: Self)
        ensures
            r@ == data.spec_bytes(),
    {
        BulkString(slice_to_vec(data.as_bytes()))
    }

    /// A copy of a byte slice.
    pub fn from_slice(data: &[u8]) -> (r: Self)
        ensures
            r@ == data@,
    {
        BulkString(slice_to_vec(data))
    }

    /// Takes a byte vector as it is.
    pub fn from_vec(data: Vec<u8>) -> (r: Self)
        ensures
            r@ == data@,
    {
        BulkString(data)
    }

    pub fn as_slice(&self) -> (r: &[u8])
        ensures
            r@ == self@,
    {
        self.0.as_slice()
    }
}


/// Text of a simple string or an error line: valid UTF-8 without CR or LF.
#[derive(Debug, PartialEq, Eq, Hash)]
pub struct Text(Vec<u8>);

impl View for Text {
    type V = Seq<u8>;

    closed spec fn view(&self) -> Seq<u8> {
        self.0@
    }
}

impl Text {
    #[verifier::type_invariant]
    closed spec fn inv(&self) -> bool {
        valid_text(self.0@)
    }

    /// The bytes as text, when they are valid text.
    pub fn new(bytes: Vec<u8>) -> (r: Option<Text>)
        ensures
            r is Some <==> valid_text(bytes@),
            r matches Some(t) ==> t@ == bytes@,
    {
        if text_ok(bytes.as_slice()) {
            Some(Text(bytes))
        } else {
            None
        }
    }

    pub fn as_slice(&self) -> (r: &[u8])
        ensures
            r@ == self@,
    {
        self.0.as_slice()
    }

    pub fn into_bytes(self) -> (r: Vec<u8>)
        ensures
            r@ == self@,
    {
        self.0
    }

    /// The bytes of a text are valid text.
    pub fn valid(&self) -> (r: bool)
        ensures
            r,
            valid_text(self@),
    {
        proof {
            use_type_invariant(self);
        }
        true
    }
}

/// A value written to the server.
#[derive(Debug, PartialEq, Eq)]
pub enum Request {
    /// Zero, one or more other requests.
    Array(Vec<Request>),
    /// A bulk string.
    BulkString(BulkString),
    /// A bulk string whose bytes live for the whole program.
    BulkStatic(&'static [u8]),
    /// A bulk string holding the decimal text of the integer.
    BulkInteger(i64),
    /// A simple string: UTF-8 text without CR or LF.
    String(Text),
    /// A signed 64-bit integer.
    Integer(i64),
}

/// A value read from the server.
#[derive(Debug, PartialEq, Eq)]
pub enum Response {
    /// The null bulk string or the null array.
    Nil,
    /// Zero, one or more other responses.
    Array(Vec<Response>),
    /// The payload of a bulk string.
    Bytes(Vec<u8>),
    /// A simple string: UTF-8 text without CR or LF.
    String(Text),
    /// An error line from the server: UTF-8 text without CR or LF.
    Error(Text),
    /// A signed 64-bit integer.
    Integer(i64),
}

/// The frame that a request stands for.
pub open spec fn request_frame(r: Request) -> Frame
    decreases r,
{
    match r {
        Request::Array(v) => Frame::Array(request_frames(v@)),
        Request::BulkString(b) => Frame::Bulk(b@),
        Request::BulkStatic(b) => Frame::Bulk(b@),
        Request::BulkInteger(v) => Frame::Bulk(decimal(v as int)),
        Request::String(t) => Frame::Simple(t@),
        Request::Integer(v) => Frame::Integer(v as int),
    }
}

pub open spec fn request_frames(s: Seq<Request>) -> Seq<Frame>
    decreases s,
{
    if s.len() == 0 {
        Seq::empty()
    } else {
        seq![request_frame(s[0])] + request_frames(s.subrange(1, s.len() as int))
    }
}

/// The frame that a response stands for.
pub open spec fn response_frame(r: Response) -> Frame
    decreases r,
{
    match r {
        Response::Nil => Frame::Nil,
        Response::Array(v) => Frame::Array(response_frames(v@)),
        Response::Bytes(b) => Frame::Bulk(b@),
        Response::String(t) => Frame::Simple(t@),
        Response::Error(t) => Frame::Error(t@),
        Response::Integer(v) => Frame::Integer(v as int),
    }
}

pub open spec fn response_frames(s: Seq<Response>) -> Seq<Frame>
    decreases s,
{
    if s.len() == 0 {
        Seq::empty()
    } else {
        seq![response_frame(s[0])] + response_frames(s.subrange(1, s.len() as int))
    }
}

impl View for Request {
    type V = Frame;

    open spec fn view(&self) -> Frame {
        request_frame(*self)
    }
}

impl View for Response {
    type V = Frame;

    open spec fn view(&self) -> Frame {
        response_frame(*self)
    }
}


pub proof fn lemma_request_frames(s: Seq<Request>)
    ensures
        request_frames(s).len() == s.len(),
        forall|k: int| 0 <= k < s.len() ==> #[trigger] request_frames(s)[k] == request_frame(s[k]),
    decreases s.len(),
{
    if s.len() > 0 {
        let rest = s.subrange(1, s.len() as int);
        lemma_request_frames(rest);
        assert forall|k: int| 0 <= k < s.len() implies #[trigger] request_frames(s)[k] == request_frame(s[k]) by {
            if k > 0 {
                assert(request_frames(s)[k] == request_frames(rest)[k - 1]);
            }
        }
    }
}

pub proof fn lemma_request_frames_push(s: Seq<Request>, r: Request)
    ensures
        request_frames(s.push(r)) == request_frames(s).push(r@),
{
    lemma_request_frames(s);
    lemma_request_frames(s.push(r));
    assert(request_frames(s.push(r)) =~= request_frames(s).push(r@));
}

/// Whether two byte slices hold the same bytes.
pub fn same_bytes(a: &[u8], b: &[u8]) -> (r: bool)
    ensures
        r == (a@ == b@),
{
    if a.len() != b.len() {
        return false;
    }
    let mut k: usize = 0;
    while k < a.len()
        invariant
            a@.len() == b@.len(),
            k <= a@.len(),
            forall|m: int| 0 <= m < k ==> a@[m] == b@[m],
        decreases a@.len() - k,
    {
        if a[k] != b[k] {
            return false;
        }
        k += 1;
    }
    assert(a@ =~= b@);
    true
}

pub proof fn lemma_response_frames(s: Seq<Response>)
    ensures
        response_frames(s).len() == s.len(),
        forall|k: int| 0 <= k < s.len() ==> #[trigger] response_frames(s)[k] == response_frame(s[k]),
    decreases s.len(),
{
    if s.len() > 0 {
        let rest = s.subrange(1, s.len() as int);
        lemma_response_frames(rest);
        assert forall|k: int| 0 <= k < s.len() implies #[trigger] response_frames(s)[k] == response_frame(s[k]) by {
            if k > 0 {
                assert(response_frames(s)[k] == response_frames(rest)[k - 1]);
            }
        }
    }
}

/// Whether `t` is valid text for a simple string or an error line.
fn text_ok(t: &[u8]) -> (r: bool)
    ensures
        r == valid_text(t@),
{
    if !is_utf8(t) {
        return false;
    }
    let mut k: usize = 0;
    while k < t.len()
        invariant
            k <= t@.len(),
            forall|m: int| 0 <= m < k ==> #[trigger] t@[m] != 13 && t@[m] != 10,
        decreases t@.len() - k,
    {
        if t[k] == 13 || t[k] == 10 {
            return false;
        }
        k += 1;
    }
    true
}

/// Whether every simple string in the request holds valid text.
fn check_request(msg: &Request) -> (r: bool)
    ensures
        r == encodable(msg@),
        r,
    decreases msg,
{
    match msg {
        Request::Array(v) => {
            proof {
                lemma_request_frames(v@);
            }
            let mut k: usize = 0;
            while k < v.len()
                invariant
                    *msg == Request::Array(*v),
                    k <= v@.len(),
                    request_frames(v@).len() == v@.len(),
                    forall|m: int| 0 <= m < v@.len() ==> #[trigger] request_frames(v@)[m] == request_frame(v@[m]),
                    forall|m: int| 0 <= m < k ==> encodable(#[trigger] request_frames(v@)[m]),
                decreases v@.len() - k,
            {
                proof {
                    assert(decreases_to!(*v => v@[k as int]));
                    assert(decreases_to!(*msg => v@[k as int]));
                }
                if !check_request(&v[k]) {
                    assert(*msg == Request::Array(*v));
                    assert(request_frame(*msg) == Frame::Array(request_frames(v@)));
                    assert(!encodable(request_frames(v@)[k as int]));
                    proof { lemma_encodable_array(request_frames(v@)); }
                    return false;
                }
                k += 1;
            }
            proof {
                lemma_encodable_array(request_frames(v@));
            }
            true
        },
        Request::String(t) => t.valid(),
        _ => true,
    }
}

fn write_crlf(buf: &mut Vec<u8>)
    ensures
        final(buf)@ == old(buf)@ + crlf(),
{
    buf.push(13);
    buf.push(10);
}

fn write_header(tag: u8, n: i128, buf: &mut Vec<u8>)
    ensures
        final(buf)@ == old(buf)@ + header(tag, n as int),
{
    buf.push(tag);
    let digits = decimal_text(n);
    buf.extend_from_slice(digits.as_slice());
    write_crlf(buf);
    assert(buf@ =~= old(buf)@ + header(tag, n as int));
}

fn write_bulk(body: &[u8], buf: &mut Vec<u8>)
    ensures
        final(buf)@ == old(buf)@ + frame_bytes(Frame::Bulk(body@)),
{
    write_header(36, body.len() as i128, buf);
    buf.extend_from_slice(body);
    write_crlf(buf);
    assert(buf@ =~= old(buf)@ + frame_bytes(Frame::Bulk(body@)));
}

/// Appends the wire bytes of the request.
fn write_request(msg: &Request, buf: &mut Vec<u8>)
    ensures
        final(buf)@ == old(buf)@ + frame_bytes(msg@),
    decreases msg,
{
    match msg {
        Request::Array(v) => {
            proof {
                lemma_request_frames(v@);
            }
            let ghost frames = request_frames(v@);
            assert(decreases_to!(*msg => *v));
            write_header(42, v.len() as i128, buf);
            let ghost start = buf@;
            let mut k: usize = 0;
            while k < v.len()
                invariant
                    *msg == Request::Array(*v),
                    decreases_to!(*msg => *v),
                    k <= v@.len(),
                    frames == request_frames(v@),
                    frames.len() == v@.len(),
                    forall|m: int| 0 <= m < v@.len() ==> #[trigger] frames[m] == request_frame(v@[m]),
                    buf@ == start + items_bytes(frames.take(k as int)),
                decreases v@.len() - k,
            {
                proof {
                    assert(*msg == Request::Array(*v));
                    assert(decreases_to!(*v => v[k as int]));
                    assert(decreases_to!(*msg => v[k as int]));
                }
                write_request(&v[k], buf);
                proof {
                    lemma_items_bytes_push(frames.take(k as int), frames[k as int]);
                    assert(frames.take(k as int).push(frames[k as int]) =~= frames.take(k + 1));
                }
                k += 1;
            }
            assert(frames.take(k as int) =~= frames);
            assert(buf@ =~= old(buf)@ + frame_bytes(msg@));
        },
        Request::BulkString(b) => write_bulk(b.as_slice(), buf),
        Request::BulkStatic(b) => write_bulk(b, buf),
        Request::BulkInteger(v) => {
            let digits = decimal_text(*v as i128);
            write_bulk(digits.as_slice(), buf);
        },
        Request::String(t) => {
            buf.push(43);
            buf.extend_from_slice(t.as_slice());
            write_crlf(buf);
            assert(buf@ =~= old(buf)@ + frame_bytes(msg@));
        },
        Request::Integer(v) => write_header(58, *v as i128, buf),
    }
}

impl Request {
    /// A bulk string holding the bytes of a text.
    pub fn from_static(data: &'static str) -> (r: Self)
        ensures
            r@ == Frame::Bulk(data.spec_bytes()),
            r matches Request::BulkStatic(b) && b@ == data.spec_bytes(),
    {
        Request::BulkStatic(data.as_bytes())
    }

    /// A bulk string holding the given bytes.
    pub fn from_bstatic(data: &'static [u8]) -> (r: Self)
        ensures
            r@ == Frame::Bulk(data@),
    {
        Request::BulkStatic(data)
    }

    /// Appends `other` to an array; any other request becomes the first
    /// element of a new array.
    pub fn add(self, other: Request) -> (r: Self)
        ensures
            r@ == match self@ {
                Frame::Array(items) => Frame::Array(items.push(other@)),
                f => Frame::Array(seq![f, other@]),
            },
    {
        match self {
            Request::Array(mut vals) => {
                let ghost before = vals@;
                proof {
                    lemma_request_frames(before);
                }
                vals.push(other);
                proof {
                    lemma_request_frames(vals@);
                    assert(request_frames(vals@) =~= request_frames(before).push(other@));
                }
                Request::Array(vals)
            },
            _ => {
                let ghost f = self@;
                let v = vec![self, other];
                proof {
                    lemma_request_frames(v@);
                    assert(request_frames(v@) =~= seq![f, other@]);
                }
                Request::Array(v)
            },
        }
    }

    /// Appends the elements of `others` to an array; any other request
    /// becomes the first element of a new array.
    pub fn extend(self, others: Vec<Request>) -> (r: Self)
        ensures
            r@ == match self@ {
                Frame::Array(items) => Frame::Array(items + request_frames(others@)),
                f => Frame::Array(seq![f] + request_frames(others@)),
            },
    {
        let ghost start = self@;
        let ghost given = request_frames(others@);
        let mut r = match self {
            Request::Array(vals) => Request::Array(vals),
            other => {
                let v = vec![other];
                proof {
                    lemma_request_frames(v@);
                    assert(request_frames(v@) =~= seq![start]);
                }
                Request::Array(v)
            },
        };
        let ghost front = match r@ {
            Frame::Array(items) => items,
            _ => Seq::empty(),
        };
        let mut rest = others;
        proof {
            lemma_request_frames(rest@);
        }
        while rest.len() > 0
            invariant
                r@ == Frame::Array(front + given.take(others@.len() - rest@.len())),
                rest@.len() <= others@.len(),
                given == request_frames(others@),
                given.len() == others@.len(),
                forall|m: int| 0 <= m < others@.len() ==> #[trigger] given[m] == request_frame(others@[m]),
                forall|m: int| 0 <= m < rest@.len() ==> #[trigger] rest@[m] == others@[others@.len() - rest@.len() + m],
            decreases rest@.len(),
        {
            let ghost done = others@.len() - rest@.len();
            let item = rest.remove(0);
            r = r.add(item);
            assert(given.take(done).push(given[done]) =~= given.take(done + 1));
        }
        assert(given.take(others@.len() as int) =~= given);
        r
    }
}

/// Text that a frame holds as a string: a simple string, or a bulk
/// string whose bytes are valid UTF-8.
pub open spec fn text_of(f: Frame) -> Option<Seq<u8>> {
    match f {
        Frame::Simple(t) => Some(t),
        Frame::Bulk(b) => if vstd::utf8::valid_utf8(b) {
            Some(b)
        } else {
            None
        },
        _ => None,
    }
}

impl Response {
    /// Separates an error line of the server from every other response.
    pub fn into_result(self) -> (r: Result<Response, Text>)
        ensures
            match self {
                Response::Error(t) => r == Err::<Response, Text>(t),
                _ => r == Ok::<Response, Text>(self),
            },
    {
        match self {
            Response::Error(val) => Err(val),
            val => Ok(val),
        }
    }

    /// The payload of a bulk string.
    pub fn to_bytes(self) -> (r: Result<Vec<u8>, (&'static str, Response)>)
        ensures
            match self {
                Response::Bytes(b) => r == Ok::<Vec<u8>, (&'static str, Response)>(b),
                _ => r matches Err((_, v)) && v == self,
            },
    {
        match self {
            Response::Bytes(b) => Ok(b),
            val => Err(("Not a bytes object", val)),
        }
    }

    /// The text of a simple string, or of a bulk string that is valid UTF-8;
    /// a bulk string that is not gives the error with `Nil`.
    pub fn to_text(self) -> (r: Result<Vec<u8>, (&'static str, Response)>)
        ensures
            match text_of(self@) {
                Some(t) => r matches Ok(w) && w@ == t,
                None => r matches Err((_, v)) && v == (if self is Bytes {
                    Response::Nil
                } else {
                    self
                }),
            },
    {
        match self {
            Response::String(t) => Ok(t.into_bytes()),
            Response::Bytes(b) => {
                if is_utf8(b.as_slice()) {
                    Ok(b)
                } else {
                    Err(("Cannot convert into a string", Response::Nil))
                }
            },
            val => Err(("Cannot convert into a string", val)),
        }
    }

    /// The elements of an array, for reading each one in turn.
    pub fn to_array(self) -> (r: Result<Vec<Response>, (&'static str, Response)>)
        ensures
            match self {
                Response::Array(v) => r == Ok::<Vec<Response>, (&'static str, Response)>(v),
                _ => r matches Err((_, e)) && e == self,
            },
    {
        match self {
            Response::Array(v) => Ok(v),
            val => Err(("Cannot be converted into a vector", val)),
        }
    }

    /// The two elements of an array of two.
    pub fn to_pair(self) -> (r: Result<(Response, Response), (&'static str, Response)>)
        ensures
            match self {
                Response::Array(v) => if v@.len() == 2 {
                    r == Ok::<(Response, Response), (&'static str, Response)>((v@[0], v@[1]))
                } else {
                    r matches Err((_, e)) && e == self
                },
                _ => r matches Err((_, e)) && e == self,
            },
    {
        match self {
            Response::Array(v) => {
                if v.len() != 2 {
                    return Err(("Array needs to be 2 elements", Response::Array(v)));
                }
                let mut v = v;
                let b = v.pop().unwrap();
                let a = v.pop().unwrap();
                Ok((a, b))
            },
            val => Err(("Unexpected value", val)),
        }
    }

    /// The three elements of an array of three.
    pub fn to_triple(self) -> (r: Result<(Response, Response, Response), (&'static str, Response)>)
        ensures
            match self {
                Response::Array(v) => if v@.len() == 3 {
                    r == Ok::<(Response, Response, Response), (&'static str, Response)>(
                        (v@[0], v@[1], v@[2]),
                    )
                } else {
                    r matches Err((_, e)) && e == self
                },
                _ => r matches Err((_, e)) && e == self,
            },
    {
        match self {
            Response::Array(v) => {
                if v.len() != 3 {
                    return Err(("Array needs to be 3 elements", Response::Array(v)));
                }
                let mut v = v;
                let c = v.pop().unwrap();
                let b = v.pop().unwrap();
                let a = v.pop().unwrap();
                Ok((a, b, c))
            },
            val => Err(("Unexpected value", val)),
        }
    }

    /// An array read as keys and values that alternate: the k-th pair is
    /// the elements 2k and 2k + 1. An odd number of elements gives the
    /// error with `Nil`.
    pub fn to_pairs(self) -> (r: Result<Vec<(Response, Response)>, (&'static str, Response)>)
        ensures
            match self {
                Response::Array(v) => if v@.len() % 2 == 0 {
                    r matches Ok(p) && p@.len() == v@.len() / 2 && forall|k: int|
                        0 <= k < p@.len() ==> #[trigger] p@[k] == (v@[2 * k], v@[2 * k + 1])
                } else {
                    r matches Err((_, e)) && e == Response::Nil
                },
                _ => r matches Err((_, e)) && e == self,
            },
    {
        match self {
            Response::Array(v) => {
                if v.len() % 2 != 0 {
                    return Err(("Cannot convert an odd number of elements into a hashmap", Response::Nil));
                }
                let ghost all = v@;
                let mut rest = v;
                let mut out: Vec<(Response, Response)> = Vec::new();
                while rest.len() > 0
                    invariant
                        all.len() % 2 == 0,
                        2 * out@.len() + rest@.len() == all.len(),
                        forall|m: int| 0 <= m < rest@.len() ==> #[trigger] rest@[m] == all[2 * out@.len() + m],
                        forall|k: int| 0 <= k < out@.len() ==> #[trigger] out@[k] == (all[2 * k], all[2 * k + 1]),
                    decreases rest@.len(),
                {
                    let key = rest.remove(0);
                    let value = rest.remove(0);
                    out.push((key, value));
                }
                Ok(out)
            },
            val => Err(("Cannot be converted into a hashmap", val)),
        }
    }

    /// A simple string "OK", as the unit value.
    pub fn to_unit(self) -> (r: Result<(), (&'static str, Response)>)
        ensures
            match self {
                Response::String(t) => if t@ == seq![79u8, 75u8] {
                    r is Ok
                } else {
                    r matches Err((_, e)) && e == self
                },
                _ => r matches Err((_, e)) && e == self,
            },
    {
        match self {
            Response::String(t) => {
                let b = t.as_slice();
                if b.len() == 2 && b[0] == 79 && b[1] == 75 {
                    assert(t@ =~= seq![79u8, 75u8]);
                    Ok(())
                } else {
                    Err(("Unexpected value within String", Response::String(t)))
                }
            },
            val => Err(("Unexpected value", val)),
        }
    }

    /// The value of an integer response.
    pub fn to_i64(self) -> (r: Result<i64, (&'static str, Response)>)
        ensures
            match self {
                Response::Integer(x) => r == Ok::<i64, (&'static str, Response)>(x),
                _ => r matches Err((_, v)) && v == self,
            },
    {
        match self {
            Response::Integer(x) => Ok(x),
            val => Err(("Cannot be converted into an i64", val)),
        }
    }

    /// An integer response that is 0 or 1, as a boolean.
    pub fn to_bool(self) -> (r: Result<bool, (&'static str, Response)>)
        ensures
            match self {
                Response::Integer(x) => if x == 0 {
                    r == Ok::<bool, (&'static str, Response)>(false)
                } else if x == 1 {
                    r == Ok::<bool, (&'static str, Response)>(true)
                } else {
                    r matches Err((_, v)) && v == self
                },
                _ => r matches Err((_, v)) && v == self,
            },
    {
        match self {
            Response::Integer(0) => Ok(false),
            Response::Integer(1) => Ok(true),
            Response::Integer(x) => Err(("i64 value cannot be represented as bool", Response::Integer(x))),
            val => Err(("Cannot be converted into a bool", val)),
        }
    }

    /// An integer response that fits an `i32`.
    pub fn to_i32(self) -> (r: Result<i32, (&'static str, Response)>)
        ensures
            match self {
                Response::Integer(x) => if i32::MIN <= x <= i32::MAX {
                    r == Ok::<i32, (&'static str, Response)>(x as i32)
                } else {
                    r matches Err((_, v)) && v == self
                },
                _ => r matches Err((_, v)) && v == self,
            },
    {
        match self {
            Response::Integer(x) => if i32::MIN as i64 <= x && x <= i32::MAX as i64 {
                Ok(x as i32)
            } else {
                Err(("i64 value cannot be represented as i32", Response::Integer(x)))
            },
            val => Err(("Cannot be converted into an i32", val)),
        }
    }

    /// An integer response that fits a `u32`.
    pub fn to_u32(self) -> (r: Result<u32, (&'static str, Response)>)
        ensures
            match self {
                Response::Integer(x) => if 0 <= x <= u32::MAX {
                    r == Ok::<u32, (&'static str, Response)>(x as u32)
                } else {
                    r matches Err((_, v)) && v == self
                },
                _ => r matches Err((_, v)) && v == self,
            },
    {
        match self {
            Response::Integer(x) => if 0 <= x && x <= u32::MAX as i64 {
                Ok(x as u32)
            } else {
                Err(("i64 value cannot be represented as u32", Response::Integer(x)))
            },
            val => Err(("Cannot be converted into a u32", val)),
        }
    }

    /// An integer response that is not negative, as a `u64`.
    pub fn to_u64(self) -> (r: Result<u64, (&'static str, Response)>)
        ensures
            match self {
                Response::Integer(x) => if 0 <= x {
                    r == Ok::<u64, (&'static str, Response)>(x as u64)
                } else {
                    r matches Err((_, v)) && v == self
                },
                _ => r matches Err((_, v)) && v == self,
            },
    {
        match self {
            Response::Integer(x) => if 0 <= x {
                Ok(x as u64)
            } else {
                Err(("i64 value cannot be represented as u64", Response::Integer(x)))
            },
            val => Err(("Cannot be converted into a u64", val)),
        }
    }

    /// An integer response that fits a `usize`.
    pub fn to_usize(self) -> (r: Result<usize, (&'static str, Response)>)
        ensures
            match self {
                Response::Integer(x) => if 0 <= x <= usize::MAX {
                    r == Ok::<usize, (&'static str, Response)>(x as usize)
                } else {
                    r matches Err((_, v)) && v == self
                },
                _ => r matches Err((_, v)) && v == self,
            },
    {
        match self {
            Response::Integer(x) => if 0 <= x && (x as u64) <= (usize::MAX as u64) {
                Ok(x as usize)
            } else {
                Err(("i64 value cannot be represented as usize", Response::Integer(x)))
            },
            val => Err(("Cannot be converted into a usize", val)),
        }
    }

    /// An integer response that fits an `isize`.
    pub fn to_isize(self) -> (r: Result<isize, (&'static str, Response)>)
        ensures
            match self {
                Response::Integer(x) => if isize::MIN <= x <= isize::MAX {
                    r == Ok::<isize, (&'static str, Response)>(x as isize)
                } else {
                    r matches Err((_, v)) && v == self
                },
                _ => r matches Err((_, v)) && v == self,
            },
    {
        match self {
            Response::Integer(x) => if (isize::MIN as i64) <= x && x <= (isize::MAX as i64) {
                Ok(x as isize)
            } else {
                Err(("i64 value cannot be represented as isize", Response::Integer(x)))
            },
            val => Err(("Cannot be converted into an isize", val)),
        }
    }
}

/// `r` reports the outcome `st` of reading a frame.
pub open spec fn reports_frame(r: Result<Option<(usize, Response)>, Error>, st: Step<Frame>) -> bool {
    match st {
        Step::Incomplete => r matches Ok(None),
        Step::Invalid => r matches Err(Error::Parse(_)),
        Step::Done(p, f) => r matches Ok(Some((q, v))) && q == p && v@ == f,
    }
}

pub proof fn lemma_response_frames_push(s: Seq<Response>, r: Response)
    ensures
        response_frames(s.push(r)) == response_frames(s) + seq![r@],
{
    lemma_response_frames(s);
    lemma_response_frames(s.push(r));
    assert(response_frames(s.push(r)) =~= response_frames(s) + seq![r@]);
}

/// Position of the first CR LF at or after `i`.
fn find_line_end(buf: &[u8], i: usize) -> (r: Option<usize>)
    ensures
        r matches Some(j) ==> line_end(buf@, i as int) == Some(j as int),
        r is None ==> line_end(buf@, i as int) is None,
        r matches Some(j) ==> i <= j && j + 2 <= buf@.len(),
{
    let mut j = i;
    while j < buf.len() && buf.len() - j >= 2
        invariant
            i <= j,
            line_end(buf@, i as int) == line_end(buf@, j as int),
        decreases buf@.len() - j,
    {
        if buf[j] == 13 && buf[j + 1] == 10 {
            return Some(j);
        }
        j += 1;
    }
    None
}

/// Reads a line that holds a decimal integer, from `idx`.
fn decode_length(buf: &[u8], idx: usize) -> (r: Result<Option<(usize, i64)>, Error>)
    ensures
        match parse_number(buf@, idx as int) {
            Step::Incomplete => r matches Ok(None),
            Step::Invalid => r matches Err(Error::Parse(_)),
            Step::Done(p, v) => r matches Ok(Some((q, w))) && q == p && w == v,
        },
        r matches Ok(Some((q, _))) ==> idx < q <= buf@.len(),
{
    let len = buf.len();
    match find_line_end(buf, idx) {
        None => Ok(None),
        Some(j) => {
            if j > idx && buf[idx] == 43 {
                return Err(Error::Parse("an integer may not start with +".to_owned()));
            }
            match parse_int(slice_subrange(buf, idx, j)) {
                None => Err(Error::Parse("not an integer".to_owned())),
                Some(v) => Ok(Some((j + 2, v))),
            }
        },
    }
}

/// Reads a text line from `idx`, for a simple string or an error.
fn scan_string(buf: &[u8], idx: usize) -> (r: Result<Option<(usize, Text)>, Error>)
    ensures
        match parse_text(buf@, idx as int) {
            Step::Incomplete => r matches Ok(None),
            Step::Invalid => r matches Err(Error::Parse(_)),
            Step::Done(p, t) => r matches Ok(Some((q, w))) && q == p && w@ == t,
        },
        r matches Ok(Some((q, _))) ==> idx < q <= buf@.len(),
{
    let len = buf.len();
    match find_line_end(buf, idx) {
        None => Ok(None),
        Some(j) => {
            let text = slice_subrange(buf, idx, j);
            if text_ok(text) {
                Ok(Some((j + 2, Text(slice_to_vec(text)))))
            } else {
                Err(Error::Parse("not a valid string".to_owned()))
            }
        },
    }
}

fn decode_bytes(buf: &[u8], idx: usize) -> (r: Result<Option<(usize, Response)>, Error>)
    ensures
        reports_frame(r, parse_bulk(buf@, idx as int)),
        r matches Ok(Some((q, _))) ==> idx < q <= buf@.len(),
{
    match decode_length(buf, idx) {
        Err(e) => Err(e),
        Ok(None) => Ok(None),
        Ok(Some((pos, size))) => {
            if size == -1 {
                Ok(Some((pos, Response::Nil)))
            } else if size < 0 {
                Err(Error::Parse("invalid string size".to_owned()))
            } else {
                let avail = buf.len() - pos;
                if (size as u64) > (avail as u64) || avail - (size as usize) < 2 {
                    Ok(None)
                } else {
                    let end = pos + size as usize;
                    if buf[end] != 13 || buf[end + 1] != 10 {
                        Err(Error::Parse("bulk string is not followed by CR LF".to_owned()))
                    } else {
                        let body = slice_to_vec(slice_subrange(buf, pos, end));
                        Ok(Some((end + 2, Response::Bytes(body))))
                    }
                }
            }
        },
    }
}

fn decode_integer(buf: &[u8], idx: usize) -> (r: Result<Option<(usize, Response)>, Error>)
    ensures
        reports_frame(r, parse_integer(buf@, idx as int)),
        r matches Ok(Some((q, _))) ==> idx < q <= buf@.len(),
{
    match decode_length(buf, idx) {
        Err(e) => Err(e),
        Ok(None) => Ok(None),
        Ok(Some((pos, v))) => Ok(Some((pos, Response::Integer(v)))),
    }
}

/// A simple string is UTF-8 text up to CR LF.
fn decode_string(buf: &[u8], idx: usize) -> (r: Result<Option<(usize, Response)>, Error>)
    ensures
        reports_frame(r, parse_simple(buf@, idx as int)),
        r matches Ok(Some((q, _))) ==> idx < q <= buf@.len(),
{
    match scan_string(buf, idx) {
        Err(e) => Err(e),
        Ok(None) => Ok(None),
        Ok(Some((pos, t))) => Ok(Some((pos, Response::String(t)))),
    }
}

fn decode_error(buf: &[u8], idx: usize) -> (r: Result<Option<(usize, Response)>, Error>)
    ensures
        reports_frame(r, parse_error_line(buf@, idx as int)),
        r matches Ok(Some((q, _))) ==> idx < q <= buf@.len(),
{
    match scan_string(buf, idx) {
        Err(e) => Err(e),
        Ok(None) => Ok(None),
        Ok(Some((pos, t))) => Ok(Some((pos, Response::Error(t)))),
    }
}

fn decode_array(buf: &[u8], idx: usize) -> (r: Result<Option<(usize, Response)>, Error>)
    requires
        0 < idx <= buf@.len(),
    ensures
        reports_frame(r, parse_array(buf@, idx as int)),
        r matches Ok(Some((q, _))) ==> idx < q <= buf@.len(),
    decreases buf@.len() - idx, 1int,
{
    match decode_length(buf, idx) {
        Err(e) => Err(e),
        Ok(None) => Ok(None),
        Ok(Some((start, size))) => {
            if size == -1 {
                return Ok(Some((start, Response::Nil)));
            } else if size < 0 {
                return Err(Error::Parse("invalid array size".to_owned()));
            }
            let ghost s = buf@;
            let mut pos = start;
            let mut values: Vec<Response> = Vec::new();
            let mut k: i64 = 0;
            while k < size
                invariant
                    s == buf@,
                    parse_number(s, idx as int) == Step::Done(start as int, size as int),
                    0 <= k <= size,
                    idx < start <= pos <= s.len(),
                    parse_items(s, start as int, size as int) == prepend(
                        response_frames(values@),
                        parse_items(s, pos as int, (size - k) as int),
                    ),
                decreases size - k,
            {
                if pos >= buf.len() {
                    return Ok(None);
                }
                match decode(buf, pos) {
                    Err(e) => return Err(e),
                    Ok(None) => return Ok(None),
                    Ok(Some((next, v))) => {
                        proof {
                            let rest = parse_items(s, next as int, (size - k - 1) as int);
                            lemma_response_frames_push(values@, v);
                            assert(parse_items(s, pos as int, (size - k) as int) == prepend(seq![v@], rest));
                            assert(response_frames(values@) + (seq![v@]) == response_frames(values@.push(v)));
                            match rest {
                                Step::Done(q, fs) => {
                                    assert(response_frames(values@) + (seq![v@] + fs) =~= response_frames(values@.push(v)) + fs);
                                },
                                _ => {},
                            }
                        }
                        values.push(v);
                        pos = next;
                    },
                }
                k += 1;
            }
            proof {
                assert(response_frames(values@) + Seq::<Frame>::empty() =~= response_frames(values@));
            }
            Ok(Some((pos, Response::Array(values))))
        },
    }
}

/// Reads the frame that starts at `idx`.
fn decode(buf: &[u8], idx: usize) -> (r: Result<Option<(usize, Response)>, Error>)
    ensures
        reports_frame(r, parse_at(buf@, idx as int)),
        r matches Ok(Some((q, _))) ==> idx < q <= buf@.len(),
    decreases buf@.len() - idx, 2int,
{
    if idx >= buf.len() {
        return Ok(None);
    }
    let tag = buf[idx];
    if tag == 36 {
        decode_bytes(buf, idx + 1)
    } else if tag == 42 {
        decode_array(buf, idx + 1)
    } else if tag == 58 {
        decode_integer(buf, idx + 1)
    } else if tag == 43 {
        decode_string(buf, idx + 1)
    } else if tag == 45 {
        decode_error(buf, idx + 1)
    } else {
        Err(Error::Parse("unexpected byte".to_owned()))
    }
}

/// Codec between RESP values and bytes.
pub struct Codec;

impl Codec {
    /// Appends the wire bytes of `msg` to `buf`. Every request can be
    /// written, since its simple strings hold valid text, so the result is
    /// always `Ok`.
    pub fn encode(&self, msg: Request, buf: &mut Vec<u8>) -> (r: Result<(), Error>)
        ensures
            r is Ok,
            encodable(msg@),
            final(buf)@ == old(buf)@ + frame_bytes(msg@),
    {
        if !check_request(&msg) {
            return Err(Error::Parse("simple string holds CR, LF or invalid UTF-8".to_owned()));
        }
        write_request(&msg, buf);
        Ok(())
    }

    /// Reads one frame from the front of `buf` and removes its bytes. When
    /// the bytes end before the frame does, or they are malformed, `buf` is
    /// left as it was.
    pub fn decode(&self, buf: &mut Vec<u8>) -> (r: Result<Option<Response>, Error>)
        ensures
            match parse_at(old(buf)@, 0) {
                Step::Incomplete => r matches Ok(None) && final(buf)@ == old(buf)@,
                Step::Invalid => r matches Err(Error::Parse(_)) && final(buf)@ == old(buf)@,
                Step::Done(p, f) => r matches Ok(Some(v)) && v@ == f && final(buf)@ == old(buf)@.subrange(p, old(buf)@.len() as int),
            },
    {
        match decode_frame(buf.as_slice()) {
            Err(e) => Err(e),
            Ok(None) => Ok(None),
            Ok(Some((pos, item))) => {
                let rest = buf.split_off(pos);
                *buf = rest;
                Ok(Some(item))
            },
        }
    }
}

/// Reads the frame at the front of `buf`: the number of bytes it takes and
/// its value, `None` when the bytes end before the frame does.
pub fn decode_frame(buf: &[u8]) -> (r: Result<Option<(usize, Response)>, Error>)
    ensures
        reports_frame(r, parse_at(buf@, 0)),
        r matches Ok(Some((q, _))) ==> 0 < q <= buf@.len(),
{
    decode(buf, 0)
}

/// A request never stands for Nil, at any depth, so the encoder never
/// writes `$-1` or `*-1`: every bulk header carries the length of the bytes
/// that follow it and every array header the number of its elements.
pub proof fn requests_are_never_nil(q: Request)
    ensures
        nil_free(q@),
    decreases q,
{
    match q {
        Request::Array(v) => {
            lemma_request_frames(v@);
            assert forall|k: int| 0 <= k < v@.len() implies nil_free(
                #[trigger] request_frames(v@)[k],
            ) by {
                assert(decreases_to!(v => v[k]));
                requests_are_never_nil(v[k]);
            }
            lemma_nil_free_array(request_frames(v@));
        },
        _ => {},
    }
}

/// Decoding what encoding wrote gives the same value back, whatever bytes
/// follow it.
pub proof fn encode_decode_round_trip(q: Request, rest: Seq<u8>)
    requires
        encodable(q@),
        wire_sized(q@),
    ensures
        parse_at(frame_bytes(q@) + rest, 0) == Step::Done(frame_bytes(q@).len() as int, q@),
{
    let s = frame_bytes(q@) + rest;
    assert(s.subrange(0, frame_bytes(q@).len() as int) =~= frame_bytes(q@));
    lemma_parse_frame(s, 0, q@);
}

/// An encoded frame split in two: the first part alone reads as incomplete
/// (so nothing is consumed), and both parts together read as the frame.
pub proof fn incremental_decode(q: Request, cut: int)
    requires
        encodable(q@),
        wire_sized(q@),
        0 <= cut < frame_bytes(q@).len(),
    ensures
        parse_at(frame_bytes(q@).take(cut), 0) == Step::<Frame>::Incomplete,
        parse_at(frame_bytes(q@).take(cut) + frame_bytes(q@).skip(cut), 0) == Step::Done(
            frame_bytes(q@).len() as int,
            q@,
        ),
{
    let b = frame_bytes(q@);
    let first = b.take(cut);
    assert(first.subrange(0, first.len() as int) =~= b.take(first.len() - 0));
    lemma_prefix_incomplete(first, 0, q@);
    assert(first + b.skip(cut) =~= b + Seq::<u8>::empty());
    encode_decode_round_trip(q, Seq::<u8>::empty());
}

} // verus!
