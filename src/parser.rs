use vstd::prelude::*;
use vstd::string::StringSliceAdditionalSpecFns;
use vstd::utf8::{decode_utf8, encode_utf8, encode_utf8_decode_utf8, encode_utf8_valid_utf8, valid_utf8};

verus! {

/// Carriage return.
pub const CR: u8 = 13;

/// Line feed.
pub const LF: u8 = 10;

/// The byte that ends the method token.
pub const SP: u8 = 32;

/// True when `b` ends with the delimiter CR LF.
pub open spec fn ends_with_crlf_spec(b: Seq<u8>) -> bool {
    b.len() >= 2 && b[b.len() - 2] == CR && b[b.len() - 1] == LF
}

/// The number of bytes before the first space of `b`, or the length of `b`
/// where it holds no space.
pub open spec fn method_len(b: Seq<u8>) -> nat
    decreases b.len(),
{
    if b.len() == 0 || b[0] == SP {
        0
    } else {
        1 + method_len(b.drop_first())
    }
}

/// The method token: the bytes before the first space, or all of `b`.
pub open spec fn method_of(b: Seq<u8>) -> Seq<u8> {
    b.take(method_len(b) as int)
}

/// The one supported method, `GET`.
pub open spec fn get_method() -> Seq<u8> {
    seq![71u8, 69u8, 84u8]
}

/// `b` without a trailing CR LF, where it has one.
pub open spec fn trimmed(b: Seq<u8>) -> Seq<u8> {
    if ends_with_crlf_spec(b) {
        b.take(b.len() - 2)
    } else {
        b
    }
}

/// The target of a request line: what lies between the method and its space
/// and the closing CR LF.
pub open spec fn target_of(b: Seq<u8>) -> Seq<u8> {
    b.subrange(method_len(b) + 1int, b.len() - 2)
}

/// Why a complete request line was refused.
#[derive(Debug, Clone, Copy, PartialEq, Eq, Structural)]
pub enum ParseError {
    /// The method is not `GET`.
    UnsupportedMethod,
    /// The target is not well-formed UTF-8.
    MalformedEncoding,
}

/// What a parser makes of the bytes received so far.
#[derive(Debug)]
pub enum ParseResult<T, E> {
    /// A complete, well-formed request.
    Complete(T),
    /// The request has not ended yet: more bytes are needed.
    Incomplete,
    /// A complete request that is refused.
    Invalid(E),
}

/// The outcome on a buffer `b`, with the target as bytes.
pub open spec fn outcome_of(b: Seq<u8>) -> ParseResult<Seq<u8>, ParseError> {
    if !ends_with_crlf_spec(b) {
        ParseResult::Incomplete
    } else if method_of(b) != get_method() {
        ParseResult::Invalid(ParseError::UnsupportedMethod)
    } else if valid_utf8(target_of(b)) {
        ParseResult::Complete(target_of(b))
    } else {
        ParseResult::Invalid(ParseError::MalformedEncoding)
    }
}

impl<T, E> From<Result<T, E>> for ParseResult<T, E> {
    /// A success becomes `Complete`, an error `Invalid`.
    fn from(result: Result<T, E>) -> (r: Self) {
        match result {
            Result::Ok(ok) => ParseResult::Complete(ok),
            Result::Err(err) => ParseResult::Invalid(err),
        }
    }
}

impl<T, E> vstd::std_specs::convert::FromSpecImpl<Result<T, E>> for ParseResult<T, E> {
    open spec fn obeys_from_spec() -> bool {
        true
    }

    open spec fn from_spec(result: Result<T, E>) -> Self {
        match result {
            Result::Ok(ok) => ParseResult::Complete(ok),
            Result::Err(err) => ParseResult::Invalid(err),
        }
    }
}

/// A request: the target text, borrowed from the buffer it was read from.
#[derive(Debug, PartialEq)]
pub struct Request<'a>(pub &'a str);

/// The outcome `r` with its request replaced by the request's bytes.
pub open spec fn outcome_bytes(r: ParseResult<Request, ParseError>) -> ParseResult<
    Seq<u8>,
    ParseError,
> {
    match r {
        ParseResult::Complete(q) => ParseResult::Complete(q.0.spec_bytes()),
        ParseResult::Incomplete => ParseResult::Incomplete,
        ParseResult::Invalid(e) => ParseResult::Invalid(e),
    }
}

proof fn lemma_method_len(b: Seq<u8>)
    ensures
        method_len(b) <= b.len(),
        forall|j: int| 0 <= j < method_len(b) ==> b[j] != SP,
        method_len(b) < b.len() ==> b[method_len(b) as int] == SP,
    decreases b.len(),
{
    if b.len() > 0 && b[0] != SP {
        lemma_method_len(b.drop_first());
        assert forall|j: int| 0 <= j < method_len(b) implies b[j] != SP by {
            if j > 0 {
                assert(b[j] == b.drop_first()[j - 1]);
            }
        }
    }
}

proof fn lemma_method_len_at(b: Seq<u8>, i: int)
    requires
        0 <= i <= b.len(),
        forall|j: int| 0 <= j < i ==> b[j] != SP,
        i == b.len() || b[i] == SP,
    ensures
        method_len(b) == i,
    decreases i,
{
    if i > 0 {
        lemma_method_len_at(b.drop_first(), i - 1);
    }
}

/// Relies on `std::str::from_utf8`: it succeeds exactly on well-formed
/// UTF-8, and the text it gives back is made of the same bytes.
#[verifier::external_body]
fn decode_text<'a>(bytes: &'a [u8]) -> (r: Option<&'a str>)
    ensures
        r is Some <==> valid_utf8(bytes@),
        r matches Some(s) ==> s.spec_bytes() == bytes@,
{
    std::str::from_utf8(bytes).ok()
}

/// A parser for requests of the form `GET target CRLF`.
pub struct HTTP0_9Parser;

impl HTTP0_9Parser {
    /// Classifies the bytes received so far: `Incomplete` until they end
    /// with CR LF, then `Invalid` for a method other than `GET` or a target that
    /// is not UTF-8, and otherwise the target as text.
    ///
    /// The parser keeps nothing between calls: a caller appends the bytes it
    /// receives to one buffer, parses it again after each append, and stops
    /// at the first `Complete` or `Invalid`.
    pub fn parse<'req>(&self, req: &'req [u8]) -> (r: ParseResult<Request<'req>, ParseError>)
        ensures
            outcome_bytes(r) == outcome_of(req@),
            r matches ParseResult::Complete(q) ==> q.0@ == decode_utf8(target_of(req@)),
    {
        if !Self::ends_with_crlf(req) {
            return ParseResult::Incomplete;
        }
        let method = Self::parse_method(req);
        if !Self::supports_method(method) {
            return ParseResult::Invalid(ParseError::UnsupportedMethod);
        }
        proof {
            lemma_method_len(req@);
        }
        let line = Self::trim_trailing_crlf(req);
        let target = &line[method.len() + 1..line.len()];
        assert(target@ == target_of(req@));
        let decoded: Result<Request<'req>, ParseError> = match decode_text(target) {
            Some(text) => {
                proof {
                    encode_utf8_decode_utf8(text@);
                }
                Ok(Request(text))
            },
            None => Err(ParseError::MalformedEncoding),
        };
        ParseResult::from(decoded)
    }

    /// The method token: the bytes of `buf` before its first space, or all
    /// of `buf` where it holds no space.
    pub fn parse_method(buf: &[u8]) -> (r: &[u8])
        ensures
            r@ == method_of(buf@),
    {
        let mut i: usize = 0;
        while i < buf.len() && buf[i] != SP
            invariant
                i <= buf.len(),
                forall|j: int| 0 <= j < i ==> buf@[j] != SP,
            decreases buf.len() - i,
        {
            i = i + 1;
        }
        proof {
            lemma_method_len_at(buf@, i as int);
        }
        &buf[0..i]
    }

    /// Whether `method` is one that the parser accepts: `GET` alone.
    pub fn supports_method(method: &[u8]) -> (r: bool)
        ensures
            r == (method@ == get_method()),
    {
        let r = method.len() == 3 && method[0] == 71u8 && method[1] == 69u8 && method[2] == 84u8;
        assert(r ==> method@ =~= get_method());
        r
    }

    /// `buf` without its trailing CR LF, or `buf` itself where it has none.
    pub fn trim_trailing_crlf(buf: &[u8]) -> (r: &[u8])
        ensures
            r@ == trimmed(buf@),
    {
        if !Self::ends_with_crlf(buf) {
            buf
        } else {
            &buf[0..buf.len() - 2]
        }
    }

    /// Whether `buf` ends with CR LF.
    pub fn ends_with_crlf(buf: &[u8]) -> (r: bool)
        ensures
            r == ends_with_crlf_spec(buf@),
    {
        let n: usize = buf.len();
        n >= 2 && buf[n - 2] == CR && buf[n - 1] == LF
    }
}

/// A buffer that does not end with CR LF is incomplete, whatever else it
/// holds: even an empty buffer or one with an unsupported method.
pub proof fn lemma_incomplete_without_crlf(b: Seq<u8>)
    requires
        !ends_with_crlf_spec(b),
    ensures
        outcome_of(b) == ParseResult::<Seq<u8>, ParseError>::Incomplete,
{
}

/// `GET`, a space, a text target and CR LF form a complete request whose
/// target is exactly that text.
pub proof fn lemma_get_line_complete(target: Seq<char>)
    ensures
        outcome_of(get_method() + seq![SP] + encode_utf8(target) + seq![CR, LF])
            == ParseResult::<Seq<u8>, ParseError>::Complete(encode_utf8(target)),
        decode_utf8(target_of(get_method() + seq![SP] + encode_utf8(target) + seq![CR, LF]))
            == target,
{
    let t = encode_utf8(target);
    let b = get_method() + seq![SP] + t + seq![CR, LF];
    lemma_method_len_at(b, 3);
    assert(method_of(b) =~= get_method());
    assert(target_of(b) =~= t);
    encode_utf8_valid_utf8(target);
    encode_utf8_decode_utf8(target);
}

/// A complete line whose method is any token other than `GET` is refused as
/// an unsupported method, whatever follows the method's space.
pub proof fn lemma_other_method_unsupported(method: Seq<u8>, rest: Seq<u8>)
    requires
        method != get_method(),
        forall|i: int| 0 <= i < method.len() ==> method[i] != SP,
    ensures
        outcome_of(method + seq![SP] + rest + seq![CR, LF]) == ParseResult::<
            Seq<u8>,
            ParseError,
        >::Invalid(ParseError::UnsupportedMethod),
{
    let b = method + seq![SP] + rest + seq![CR, LF];
    lemma_method_len_at(b, method.len() as int);
    assert(method_of(b) =~= method);
}

/// Parsing keeps no state: any two outcomes of `parse` on the same bytes
/// agree, down to the text of a complete request.
pub proof fn lemma_parse_deterministic<'a, 'b>(
    b: Seq<u8>,
    r1: ParseResult<Request<'a>, ParseError>,
    r2: ParseResult<Request<'b>, ParseError>,
)
    requires
        outcome_bytes(r1) == outcome_of(b),
        outcome_bytes(r2) == outcome_of(b),
    ensures
        outcome_bytes(r1) == outcome_bytes(r2),
        r1 matches ParseResult::Complete(q1) ==> (r2 matches ParseResult::Complete(q2)
            && q1.0@ == q2.0@),
{
    if let ParseResult::Complete(q1) = r1 {
        if let ParseResult::Complete(q2) = r2 {
            encode_utf8_decode_utf8(q1.0@);
            encode_utf8_decode_utf8(q2.0@);
        }
    }
}

} // verus!
