//! Packing of an `ip:port` text into the 32-byte address field of a packet.

use vstd::prelude::*;
use vstd::string::StringSliceAdditionalSpecFns;

verus! {

/// Why a field of a node record could not be brought into its binary form.
#[derive(Clone, Copy, Debug, PartialEq, Eq, Structural)]
pub enum CodecError {
    /// The host text is not an IPv4 address, a colon and a port.
    AddressFormatError,
    /// The key text is not URL-safe base64.
    KeyDecodeError,
    /// The key decodes to more than 32 bytes.
    KeyLengthError,
}

/// An IPv4 address with a port.
#[derive(Clone, Copy, Debug, PartialEq, Eq, Structural)]
pub struct Ipv4Socket {
    pub a: u8,
    pub b: u8,
    pub c: u8,
    pub d: u8,
    pub port: u16,
}

pub open spec fn is_digit(b: u8) -> bool {
    48 <= b <= 57
}

/// The first position at or after `from` that holds no decimal digit.
pub open spec fn digits_end(s: Seq<u8>, from: int) -> int
    decreases s.len() - from,
{
    if 0 <= from < s.len() && is_digit(s[from]) {
        digits_end(s, from + 1)
    } else {
        from
    }
}

pub open spec fn all_digits(t: Seq<u8>) -> bool {
    forall|i: int| 0 <= i < t.len() ==> is_digit(#[trigger] t[i])
}

/// The number that a text of decimal digits denotes.
pub open spec fn decimal_value(t: Seq<u8>) -> nat
    decreases t.len(),
{
    if t.len() == 0 {
        0
    } else {
        decimal_value(t.drop_last()) * 10 + (t.last() - 48) as nat
    }
}

/// One to three digits, no leading zero before another digit, at most 255.
pub open spec fn is_octet_text(t: Seq<u8>) -> bool {
    &&& 1 <= t.len() <= 3
    &&& all_digits(t)
    &&& (t.len() > 1 ==> t[0] != 48)
    &&& decimal_value(t) <= 255
}

/// One or more digits, leading zeros allowed, at most 65535.
pub open spec fn is_port_text(t: Seq<u8>) -> bool {
    &&& 1 <= t.len()
    &&& all_digits(t)
    &&& decimal_value(t) <= 65535
}

/// What a text denotes as `a.b.c.d:port`, if it has that form.
pub open spec fn parse_socket(s: Seq<u8>) -> Option<Ipv4Socket> {
    let e0 = digits_end(s, 0);
    let e1 = digits_end(s, e0 + 1);
    let e2 = digits_end(s, e1 + 1);
    let e3 = digits_end(s, e2 + 1);
    let e4 = digits_end(s, e3 + 1);
    if e0 < s.len() && s[e0] == 46 && is_octet_text(s.subrange(0, e0))
        && e1 < s.len() && s[e1] == 46 && is_octet_text(s.subrange(e0 + 1, e1))
        && e2 < s.len() && s[e2] == 46 && is_octet_text(s.subrange(e1 + 1, e2))
        && e3 < s.len() && s[e3] == 58 && is_octet_text(s.subrange(e2 + 1, e3))
        && e4 == s.len() && is_port_text(s.subrange(e3 + 1, e4)) {
        Some(
            Ipv4Socket {
                a: decimal_value(s.subrange(0, e0)) as u8,
                b: decimal_value(s.subrange(e0 + 1, e1)) as u8,
                c: decimal_value(s.subrange(e1 + 1, e2)) as u8,
                d: decimal_value(s.subrange(e2 + 1, e3)) as u8,
                port: decimal_value(s.subrange(e3 + 1, e4)) as u16,
            },
        )
    } else {
        None
    }
}

/// The address field: four octets, the port with its high byte first, then
/// 26 zero bytes.
pub open spec fn address_layout(sock: Ipv4Socket) -> Seq<u8> {
    seq![sock.a, sock.b, sock.c, sock.d, (sock.port / 256) as u8, (sock.port % 256) as u8]
        + Seq::new(26, |i: int| 0u8)
}

/// The address field of an `ip:port` text given by its bytes.
pub open spec fn encoded_address(s: Seq<u8>) -> Result<Seq<u8>, CodecError> {
    match parse_socket(s) {
        Some(sock) => Ok(address_layout(sock)),
        None => Err(CodecError::AddressFormatError),
    }
}

proof fn lemma_digits_end(s: Seq<u8>, from: int)
    requires
        0 <= from <= s.len(),
    ensures
        from <= digits_end(s, from) <= s.len(),
        forall|i: int| from <= i < digits_end(s, from) ==> is_digit(#[trigger] s[i]),
        digits_end(s, from) < s.len() ==> !is_digit(s[digits_end(s, from)]),
    decreases s.len() - from,
{
    if from < s.len() && is_digit(s[from]) {
        lemma_digits_end(s, from + 1);
    }
}

proof fn lemma_digits_end_step(s: Seq<u8>, from: int, i: int)
    requires
        0 <= from <= i <= s.len(),
        forall|j: int| from <= j < i ==> is_digit(#[trigger] s[j]),
    ensures
        digits_end(s, from) == digits_end(s, i),
    decreases i - from,
{
    if from < i {
        lemma_digits_end_step(s, from + 1, i);
    }
}

proof fn lemma_value_grows(s: Seq<u8>, from: int, i: int, j: int)
    requires
        0 <= from <= i <= j <= s.len(),
    ensures
        decimal_value(s.subrange(from, i)) <= decimal_value(s.subrange(from, j)),
    decreases j - i,
{
    if i < j {
        lemma_value_grows(s, from, i, j - 1);
        assert(s.subrange(from, j).drop_last() =~= s.subrange(from, j - 1));
    }
}

/// Finds where the run of digits that starts at `from` ends.
fn scan_digits(s: &[u8], from: usize) -> (end: usize)
    requires
        from <= s@.len(),
    ensures
        end == digits_end(s@, from as int),
        from <= end <= s@.len(),
        forall|i: int| from <= i < end ==> is_digit(#[trigger] s@[i]),
{
    let mut i: usize = from;
    while i < s.len() && 48 <= s[i] && s[i] <= 57
        invariant
            from <= i <= s@.len(),
            forall|j: int| from <= j < i ==> is_digit(#[trigger] s@[j]),
        decreases s@.len() - i,
    {
        i += 1;
    }
    proof {
        lemma_digits_end_step(s@, from as int, i as int);
    }
    i
}

/// Reads the digits in `s[from..end]` as a number, unless it exceeds `bound`.
fn read_decimal(s: &[u8], from: usize, end: usize, bound: u32) -> (r: Option<u32>)
    requires
        from <= end <= s@.len(),
        forall|i: int| from <= i < end ==> is_digit(#[trigger] s@[i]),
        bound <= 65535,
    ensures
        r is Some <==> decimal_value(s@.subrange(from as int, end as int)) <= bound,
        r is Some ==> r.unwrap() == decimal_value(s@.subrange(from as int, end as int)),
{
    let mut acc: u32 = 0;
    let mut i: usize = from;
    while i < end
        invariant
            from <= i <= end <= s@.len(),
            forall|j: int| from <= j < end ==> is_digit(#[trigger] s@[j]),
            acc == decimal_value(s@.subrange(from as int, i as int)),
            acc <= bound <= 65535,
        decreases end - i,
    {
        let digit: u32 = (s[i] - 48) as u32;
        proof {
            assert(s@.subrange(from as int, i + 1).drop_last() =~= s@.subrange(
                from as int,
                i as int,
            ));
            lemma_value_grows(s@, from as int, i + 1, end as int);
        }
        let next: u32 = acc * 10 + digit;
        if next > bound {
            return None;
        }
        acc = next;
        i += 1;
    }
    Some(acc)
}

/// Reads one octet of a dotted quad: the digits in `s[from..end]`.
fn read_octet(s: &[u8], from: usize, end: usize) -> (r: Option<u8>)
    requires
        from <= end <= s@.len(),
        forall|i: int| from <= i < end ==> is_digit(#[trigger] s@[i]),
    ensures
        r is Some <==> is_octet_text(s@.subrange(from as int, end as int)),
        r is Some ==> r.unwrap() == decimal_value(s@.subrange(from as int, end as int)),
{
    let len: usize = end - from;
    if len < 1 || len > 3 {
        return None;
    }
    if len > 1 && s[from] == 48 {
        return None;
    }
    match read_decimal(s, from, end, 255) {
        Some(v) => Some(v as u8),
        None => None,
    }
}

/// Parses a text of the form `a.b.c.d:port`.
///
/// Each of the four octets is written with one to three decimal digits, without
/// a leading zero before another digit, and is at most 255. The port is written
/// with one or more decimal digits and is at most 65535. Nothing else may stand
/// in the text.
pub fn parse_socket_address(text: &[u8]) -> (r: Option<Ipv4Socket>)
    ensures
        r == parse_socket(text@),
{
    let n: usize = text.len();
    let e0: usize = scan_digits(text, 0);
    if e0 >= n || text[e0] != 46 {
        return None;
    }
    let e1: usize = scan_digits(text, e0 + 1);
    if e1 >= n || text[e1] != 46 {
        return None;
    }
    let e2: usize = scan_digits(text, e1 + 1);
    if e2 >= n || text[e2] != 46 {
        return None;
    }
    let e3: usize = scan_digits(text, e2 + 1);
    if e3 >= n || text[e3] != 58 {
        return None;
    }
    let e4: usize = scan_digits(text, e3 + 1);
    if e4 != n || e4 == e3 + 1 {
        return None;
    }
    let a = read_octet(text, 0, e0);
    let b = read_octet(text, e0 + 1, e1);
    let c = read_octet(text, e1 + 1, e2);
    let d = read_octet(text, e2 + 1, e3);
    let port = read_decimal(text, e3 + 1, e4, 65535);
    match (a, b, c, d, port) {
        (Some(a), Some(b), Some(c), Some(d), Some(port)) => Some(
            Ipv4Socket { a, b, c, d, port: port as u16 },
        ),
        _ => None,
    }
}

/// Lays an address out in the 32-byte field of the packet format.
pub fn pack_address(sock: Ipv4Socket) -> (r: [u8; 32])
    ensures
        r@ == address_layout(sock),
{
    let mut out: [u8; 32] = [0u8; 32];
    out[0] = sock.a;
    out[1] = sock.b;
    out[2] = sock.c;
    out[3] = sock.d;
    out[4] = (sock.port / 256) as u8;
    out[5] = (sock.port % 256) as u8;
    assert(out@ =~= address_layout(sock));
    out
}

/// Reads an address back from the address field.
///
/// Gives the address whose layout the field holds, and nothing where the field
/// is the layout of no address: where one of its last 26 bytes is not zero.
pub fn unpack_address(bytes: &[u8; 32]) -> (r: Option<Ipv4Socket>)
    ensures
        match r {
            Some(sock) => bytes@ == address_layout(sock),
            None => forall|sock: Ipv4Socket| bytes@ != #[trigger] address_layout(sock),
        },
{
    let mut i: usize = 6;
    while i < 32
        invariant
            6 <= i <= 32,
            forall|j: int| 6 <= j < i ==> bytes@[j] == 0,
        decreases 32 - i,
    {
        if bytes[i] != 0 {
            assert forall|sock: Ipv4Socket| bytes@ != #[trigger] address_layout(sock) by {
                assert(address_layout(sock)[i as int] == 0);
            }
            return None;
        }
        i += 1;
    }
    let high: u16 = bytes[4] as u16;
    let low: u16 = bytes[5] as u16;
    let sock = Ipv4Socket {
        a: bytes[0],
        b: bytes[1],
        c: bytes[2],
        d: bytes[3],
        port: high * 256 + low,
    };
    assert(bytes@ =~= address_layout(sock));
    Some(sock)
}

/// Two addresses with the same layout are the same address; so unpacking what
/// was packed gives the address back.
pub proof fn law_layout_keeps_the_address(s: Ipv4Socket, t: Ipv4Socket)
    requires
        address_layout(s) == address_layout(t),
    ensures
        s == t,
{
    assert(address_layout(s)[0] == s.a && address_layout(t)[0] == t.a);
    assert(address_layout(s)[1] == s.b && address_layout(t)[1] == t.b);
    assert(address_layout(s)[2] == s.c && address_layout(t)[2] == t.c);
    assert(address_layout(s)[3] == s.d && address_layout(t)[3] == t.d);
    assert(address_layout(s)[4] == (s.port / 256) as u8);
    assert(address_layout(t)[4] == (t.port / 256) as u8);
    assert(address_layout(s)[5] == (s.port % 256) as u8);
    assert(address_layout(t)[5] == (t.port % 256) as u8);
}

/// Encodes a host given as `ip:port` into the address field.
///
/// Fails with `AddressFormatError` exactly when the text is not an IPv4
/// address, a colon and a port.
pub fn encode_address(host: &str) -> (r: Result<[u8; 32], CodecError>)
    ensures
        match encoded_address(host.spec_bytes()) {
            Ok(bytes) => r is Ok && r.unwrap()@ == bytes,
            Err(e) => r == Err::<[u8; 32], CodecError>(e),
        },
{
    match parse_socket_address(host.as_bytes()) {
        Some(sock) => Ok(pack_address(sock)),
        None => Err(CodecError::AddressFormatError),
    }
}

/// The text `a.b.c.d:port` put together from its five fields.
pub open spec fn socket_text(a: Seq<u8>, b: Seq<u8>, c: Seq<u8>, d: Seq<u8>, port: Seq<u8>) -> Seq<u8> {
    a + seq![46u8] + b + seq![46u8] + c + seq![46u8] + d + seq![58u8] + port
}

proof fn lemma_field_ends(s: Seq<u8>, from: int, field: Seq<u8>)
    requires
        0 <= from,
        from + field.len() <= s.len(),
        all_digits(field),
        s.subrange(from, from + field.len()) == field,
        from + field.len() < s.len() ==> !is_digit(s[from + field.len()]),
    ensures
        digits_end(s, from) == from + field.len(),
{
    let end = from + field.len();
    assert forall|j: int| from <= j < end implies is_digit(#[trigger] s[j]) by {
        assert(s[j] == s.subrange(from, end)[j - from]);
    }
    lemma_digits_end_step(s, from, end);
}

/// Four octet texts joined by dots, a colon and a port text parse to the
/// numbers that the five texts denote.
pub proof fn law_fields_parse(a: Seq<u8>, b: Seq<u8>, c: Seq<u8>, d: Seq<u8>, port: Seq<u8>)
    requires
        is_octet_text(a),
        is_octet_text(b),
        is_octet_text(c),
        is_octet_text(d),
        is_port_text(port),
    ensures
        parse_socket(socket_text(a, b, c, d, port)) == Some(
            Ipv4Socket {
                a: decimal_value(a) as u8,
                b: decimal_value(b) as u8,
                c: decimal_value(c) as u8,
                d: decimal_value(d) as u8,
                port: decimal_value(port) as u16,
            },
        ),
{
    let s = socket_text(a, b, c, d, port);
    let e0 = a.len() as int;
    let e1 = e0 + 1 + b.len();
    let e2 = e1 + 1 + c.len();
    let e3 = e2 + 1 + d.len();
    let e4 = e3 + 1 + port.len();
    assert(s.len() == e4);
    assert(s[e0] == 46 && s[e1] == 46 && s[e2] == 46 && s[e3] == 58);
    assert(s.subrange(0, e0) =~= a);
    assert(s.subrange(e0 + 1, e1) =~= b);
    assert(s.subrange(e1 + 1, e2) =~= c);
    assert(s.subrange(e2 + 1, e3) =~= d);
    assert(s.subrange(e3 + 1, e4) =~= port);
    lemma_field_ends(s, 0, a);
    lemma_field_ends(s, e0 + 1, b);
    lemma_field_ends(s, e1 + 1, c);
    lemma_field_ends(s, e2 + 1, d);
    lemma_field_ends(s, e3 + 1, port);
}

/// A text that parses is put together from its five fields, each of them well
/// formed.
pub proof fn law_parsed_text_has_fields(s: Seq<u8>)
    requires
        parse_socket(s) is Some,
    ensures
        exists|a: Seq<u8>, b: Seq<u8>, c: Seq<u8>, d: Seq<u8>, port: Seq<u8>|
            #![trigger socket_text(a, b, c, d, port)]
            s == socket_text(a, b, c, d, port) && is_octet_text(a) && is_octet_text(b)
                && is_octet_text(c) && is_octet_text(d) && is_port_text(port),
{
    let e0 = digits_end(s, 0);
    let e1 = digits_end(s, e0 + 1);
    let e2 = digits_end(s, e1 + 1);
    let e3 = digits_end(s, e2 + 1);
    let e4 = digits_end(s, e3 + 1);
    lemma_digits_end(s, 0);
    lemma_digits_end(s, e0 + 1);
    lemma_digits_end(s, e1 + 1);
    lemma_digits_end(s, e2 + 1);
    lemma_digits_end(s, e3 + 1);
    let a = s.subrange(0, e0);
    let b = s.subrange(e0 + 1, e1);
    let c = s.subrange(e1 + 1, e2);
    let d = s.subrange(e2 + 1, e3);
    let port = s.subrange(e3 + 1, e4);
    assert(s =~= socket_text(a, b, c, d, port));
}

} // verus!
