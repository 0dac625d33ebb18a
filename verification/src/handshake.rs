//! The greeting a sending actor writes on a fresh connection before any
//! message: its own address and, when it asks the receiver to adapt, the name
//! of its message type.
//!
//! Layout: a 4-byte big-endian length and the UTF-8 address; then either a
//! 4-byte big-endian length and the UTF-8 type name, or four zero bytes.
use vstd::prelude::*;
use vstd::utf8::{valid_utf8, decode_utf8, encode_utf8};
use vstd::string::StringSliceAdditionalSpecFns;

verus! {

/// Who is on the other end of a connection, and which message type it sends
/// when it asked the receiver to adapt to it.
#[derive(Debug, Clone)]
pub struct Handshake {
    pub actor_addr: String,
    pub msg_type: Option<String>,
}

/// Big-endian bytes of a 32-bit length.
pub open spec fn be32(n: nat) -> Seq<u8> {
    seq![
        (n / 16777216 % 256) as u8,
        (n / 65536 % 256) as u8,
        (n / 256 % 256) as u8,
        (n % 256) as u8,
    ]
}

/// The number that four big-endian bytes stand for.
pub open spec fn from_be32(b: Seq<u8>) -> nat {
    (b[0] as nat) * 16777216 + (b[1] as nat) * 65536 + (b[2] as nat) * 256 + (b[3] as nat)
}

/// The bytes of the handshake of `name`, with `msg_kind` sent when `adapt`.
pub open spec fn spec_encode(name: Seq<char>, msg_kind: Seq<char>, adapt: bool) -> Seq<u8> {
    let nb = encode_utf8(name);
    let tb = encode_utf8(msg_kind);
    be32(nb.len()) + nb + if adapt {
        be32(tb.len()) + tb
    } else {
        be32(0)
    }
}

/// The handshake at the start of `b` and the number of bytes it takes, if
/// `b` starts with a complete and well-formed one. A type name of length 0
/// reads as no type name.
pub open spec fn spec_decode(b: Seq<u8>) -> Option<(Seq<char>, Option<Seq<char>>, nat)> {
    if b.len() < 4 {
        None
    } else {
        let n = from_be32(b.subrange(0, 4)) as int;
        if b.len() < 8 + n {
            None
        } else {
            let nb = b.subrange(4, 4 + n);
            let m = from_be32(b.subrange(4 + n, 8 + n)) as int;
            if !valid_utf8(nb) {
                None
            } else if m == 0 {
                Some((decode_utf8(nb), None, (8 + n) as nat))
            } else if b.len() < 8 + n + m {
                None
            } else {
                let tb = b.subrange(8 + n, 8 + n + m);
                if !valid_utf8(tb) {
                    None
                } else {
                    Some((decode_utf8(nb), Some(decode_utf8(tb)), (8 + n + m) as nat))
                }
            }
        }
    }
}

proof fn lemma_be32(n: nat)
    requires
        n <= u32::MAX,
    ensures
        be32(n).len() == 4,
        from_be32(be32(n)) == n,
{
}

/// `String::from_utf8`: the bytes become a string exactly when they are valid
/// UTF-8, and the string holds the characters they encode.
#[verifier::external_body]
fn utf8_string(bytes: Vec<u8>) -> (r: Option<String>)
    ensures
        r is Some == valid_utf8(bytes@),
        r matches Some(s) ==> s@ == decode_utf8(bytes@),
{
    String::from_utf8(bytes).ok()
}

/// Appends the big-endian bytes of `n`.
fn push_be32(out: &mut Vec<u8>, n: u32)
    ensures
        final(out)@ == old(out)@ + be32(n as nat),
{
    out.push((n / 16777216) as u8);
    out.push((n / 65536 % 256) as u8);
    out.push((n / 256 % 256) as u8);
    out.push((n % 256) as u8);
    assert(final(out)@ =~= old(out)@ + be32(n as nat));
}

/// Appends a byte string.
fn push_bytes(out: &mut Vec<u8>, b: &[u8])
    ensures
        final(out)@ == old(out)@ + b@,
{
    let mut i: usize = 0;
    while i < b.len()
        invariant
            i <= b@.len(),
            out@ == old(out)@ + b@.subrange(0, i as int),
        decreases b@.len() - i,
    {
        out.push(b[i]);
        i = i + 1;
        assert(out@ =~= old(out)@ + b@.subrange(0, i as int));
    }
    assert(b@.subrange(0, b@.len() as int) =~= b@);
}

/// The number that the four bytes at `at` stand for.
pub fn read_be32(b: &[u8], at: usize) -> (r: u32)
    requires
        at + 4 <= b@.len(),
    ensures
        r == from_be32(b@.subrange(at as int, at + 4)),
{
    let r = (b[at] as u32) * 16777216 + (b[at + 1] as u32) * 65536 + (b[at + 2] as u32) * 256 + (
    b[at + 3] as u32);
    r
}

/// The bytes from `from` to `to`.
fn copy_range(b: &[u8], from: usize, to: usize) -> (r: Vec<u8>)
    requires
        from <= to <= b@.len(),
    ensures
        r@ == b@.subrange(from as int, to as int),
{
    let mut out: Vec<u8> = Vec::new();
    let mut i: usize = from;
    while i < to
        invariant
            from <= i <= to,
            to <= b@.len(),
            out@ == b@.subrange(from as int, i as int),
        decreases to - i,
    {
        out.push(b[i]);
        i = i + 1;
        assert(out@ =~= b@.subrange(from as int, i as int));
    }
    out
}

impl Handshake {
    /// The handshake an actor named `my_name` sends, naming its message type
    /// only when it asks the receiver to adapt.
    pub fn new(my_name: &str, msg_kind: &str, ask_receiver_to_adapt: bool) -> (r: Self)
        ensures
            r.actor_addr@ == my_name@,
            r.msg_type matches Some(t) ==> t@ == msg_kind@,
            r.msg_type is Some == ask_receiver_to_adapt,
    {
        Handshake {
            actor_addr: String::from_str(my_name),
            msg_type: if ask_receiver_to_adapt {
                Some(String::from_str(msg_kind))
            } else {
                None
            },
        }
    }

    /// The bytes written on a connection.
    pub fn encode(my_name: &str, msg_kind: &str, ask_receiver_to_adapt: bool) -> (r: Vec<u8>)
        requires
            my_name.spec_bytes().len() <= u32::MAX,
            ask_receiver_to_adapt ==> msg_kind.spec_bytes().len() <= u32::MAX,
        ensures
            r@ == spec_encode(my_name@, msg_kind@, ask_receiver_to_adapt),
    {
        let mut out: Vec<u8> = Vec::new();
        let nb = my_name.as_bytes();
        push_be32(&mut out, my_name.len() as u32);
        push_bytes(&mut out, nb);
        if ask_receiver_to_adapt {
            let tb = msg_kind.as_bytes();
            push_be32(&mut out, msg_kind.len() as u32);
            push_bytes(&mut out, tb);
        } else {
            push_be32(&mut out, 0);
        }
        assert(out@ =~= spec_encode(my_name@, msg_kind@, ask_receiver_to_adapt));
        out
    }

    /// Reads the handshake at the start of `b`, with the number of bytes it
    /// takes. `None` when the bytes run out early or a name is not UTF-8.
    pub fn decode(b: &[u8]) -> (r: Option<(Handshake, usize)>)
        ensures
            match spec_decode(b@) {
                None => r is None,
                Some((name, ty, len)) => r matches Some((h, used)) && h.actor_addr@ == name && used
                    == len && match ty {
                    None => h.msg_type is None,
                    Some(t) => h.msg_type matches Some(ht) && ht@ == t,
                },
            },
    {
        if b.len() < 4 {
            return None;
        }
        let n = read_be32(b, 0) as usize;
        if b.len() - 4 < n || b.len() - 4 - n < 4 {
            return None;
        }
        let name = match utf8_string(copy_range(b, 4, 4 + n)) {
            Some(s) => s,
            None => {
                return None;
            },
        };
        let m = read_be32(b, 4 + n) as usize;
        if m == 0 {
            return Some((Handshake { actor_addr: name, msg_type: None }, 8 + n));
        }
        if b.len() - 8 - n < m {
            return None;
        }
        match utf8_string(copy_range(b, 8 + n, 8 + n + m)) {
            Some(t) => Some((Handshake { actor_addr: name, msg_type: Some(t) }, 8 + n + m)),
            None => None,
        }
    }
}

/// Reading back what was written gives the same handshake (a type name that
/// is sent empty reads as no type name), and whatever follows the handshake
/// on the connection is left alone.
pub proof fn lemma_handshake_roundtrip(
    name: Seq<char>,
    msg_kind: Seq<char>,
    adapt: bool,
    rest: Seq<u8>,
)
    requires
        encode_utf8(name).len() <= u32::MAX,
        adapt ==> encode_utf8(msg_kind).len() <= u32::MAX,
    ensures
        spec_decode(spec_encode(name, msg_kind, adapt) + rest) == Some(
            (
                name,
                if adapt && msg_kind.len() > 0 {
                    Some(msg_kind)
                } else {
                    None
                },
                spec_encode(name, msg_kind, adapt).len(),
            ),
        ),
{
    broadcast use vstd::utf8::group_utf8_lib;

    let nb = encode_utf8(name);
    let tb = encode_utf8(msg_kind);
    let e = spec_encode(name, msg_kind, adapt);
    let b = e + rest;
    lemma_be32(nb.len());
    lemma_be32(0);
    let n = nb.len() as int;
    assert(b.subrange(0, 4) =~= be32(nb.len()));
    assert(b.subrange(4, 4 + n) =~= nb);
    if adapt {
        lemma_be32(tb.len());
        assert(b.subrange(4 + n, 8 + n) =~= be32(tb.len()));
        assert(b.subrange(8 + n, 8 + n + tb.len() as int) =~= tb);
        if tb.len() == 0 {
            assert(msg_kind.len() == 0) by {
                assert(decode_utf8(tb) == msg_kind);
                assert(tb =~= Seq::<u8>::empty());
            }
        } else {
            assert(msg_kind.len() > 0) by {
                if msg_kind.len() == 0 {
                    assert(msg_kind =~= Seq::<char>::empty());
                    assert(encode_utf8(msg_kind) =~= Seq::<u8>::empty());
                }
            }
        }
    } else {
        assert(b.subrange(4 + n, 8 + n) =~= be32(0));
    }
}

} // verus!
