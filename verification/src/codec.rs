//! Self-framing binary encoding of the command protocol.
//!
//! Every value is encoded as a tag byte (for sums) followed by its fields;
//! variable-length fields carry an 8-byte little-endian length prefix, and
//! text is carried as UTF-8 bytes. `decode_command` / `decode_reciver_command`
//! accept exactly the encodings that `encode_command` /
//! `encode_reciver_command` produce: decoding is proved to succeed on every
//! encoded message and to fail cleanly on every other byte string, so a
//! truncated or garbled message is reported as an error rather than
//! misread.

use vstd::prelude::*;
use vstd::bytes::*;
use vstd::utf8::*;
use vstd::slice::*;
use crate::command::{Command, CommandView, Level, LogMessageBuf, LogMessageBufView,
    ReciverCommand, ReciverCommandView};

verus! {

// ---------------------------------------------------------------------------
// Specification of the wire format
// ---------------------------------------------------------------------------

/// Wire form of one text field: 8-byte little-endian byte count, then the
/// UTF-8 bytes of the text.
pub open spec fn spec_encode_str(s: Seq<char>) -> Seq<u8> {
    spec_u64_to_le_bytes(encode_utf8(s).len() as u64) + encode_utf8(s)
}

/// Wire form of an optional text field: a presence byte, then the field.
pub open spec fn spec_encode_opt_str(o: Option<Seq<char>>) -> Seq<u8> {
    match o {
        Option::None => seq![0u8],
        Option::Some(s) => seq![1u8] + spec_encode_str(s),
    }
}

/// Wire form of a signed 64-bit value: its two's-complement bits,
/// little-endian.
pub open spec fn spec_encode_i64(x: i64) -> Seq<u8> {
    spec_u64_to_le_bytes(x as u64)
}

/// Wire form of an optional 32-bit value: a presence byte, then the value
/// little-endian.
pub open spec fn spec_encode_opt_u32(o: Option<u32>) -> Seq<u8> {
    match o {
        Option::None => seq![0u8],
        Option::Some(x) => seq![1u8] + spec_u32_to_le_bytes(x),
    }
}

/// Tag byte of a log level.
pub open spec fn level_tag(l: Level) -> u8 {
    match l {
        Level::Error => 0u8,
        Level::Warn => 1u8,
        Level::Info => 2u8,
        Level::Debug => 3u8,
        Level::Trace => 4u8,
    }
}

/// Wire form of a log level: its tag byte.
pub open spec fn spec_encode_level(l: Level) -> Seq<u8> {
    seq![level_tag(l)]
}

/// Wire form of a list of text fields, without the leading count.
pub open spec fn spec_encode_str_list(v: Seq<Seq<char>>) -> Seq<u8>
    decreases v.len(),
{
    if v.len() == 0 {
        Seq::<u8>::empty()
    } else {
        spec_encode_str(v[0]) + spec_encode_str_list(v.drop_first())
    }
}

/// Wire form of a forwarded argument list: 8-byte little-endian count, then
/// each argument in order.
pub open spec fn spec_encode_args(v: Seq<Seq<char>>) -> Seq<u8> {
    spec_u64_to_le_bytes(v.len() as u64) + spec_encode_str_list(v)
}

/// Wire form of a structured log record: its fields in declaration order.
pub open spec fn spec_encode_log_msg(m: LogMessageBufView) -> Seq<u8> {
    spec_encode_opt_str(m.thread_name) + spec_encode_opt_str(m.thread_id)
        + spec_encode_level(m.level) + spec_encode_str(m.message)
        + spec_encode_i64(m.local_time) + spec_encode_opt_str(m.module)
        + spec_encode_opt_str(m.file) + spec_encode_opt_u32(m.line)
}

/// Wire form of a request command: a variant tag byte, then the fields.
pub open spec fn spec_encode_command(c: CommandView) -> Seq<u8> {
    match c {
        CommandView::Exec { app_id, script } => seq![0u8] + spec_encode_str(app_id)
            + spec_encode_str(script),
        CommandView::Args(args) => seq![1u8] + spec_encode_args(args),
        CommandView::Exit => seq![2u8],
    }
}

/// Wire form of a reply command: a variant tag byte, then the fields.
pub open spec fn spec_encode_reciver_command(c: ReciverCommandView) -> Seq<u8> {
    match c {
        ReciverCommandView::Log { app_id, message } => seq![0u8] + spec_encode_str(app_id)
            + spec_encode_log_msg(message),
        ReciverCommandView::ExecResult { result } => seq![1u8] + spec_encode_str(result),
        ReciverCommandView::Args(args) => seq![2u8] + spec_encode_args(args),
        ReciverCommandView::Exit => seq![3u8],
    }
}

/// Whether some request command encodes to exactly these bytes.
pub open spec fn is_command_encoding(b: Seq<u8>) -> bool {
    exists|c: CommandView| spec_encode_command(c) == b
}

/// Whether some reply command encodes to exactly these bytes.
pub open spec fn is_reciver_encoding(b: Seq<u8>) -> bool {
    exists|c: ReciverCommandView| spec_encode_reciver_command(c) == b
}

/// Whether some encoding of a text field is a prefix of these bytes.
pub open spec fn starts_with_str(t: Seq<u8>) -> bool {
    exists|s: Seq<char>, rest: Seq<u8>| t == spec_encode_str(s) + rest
}

// ---------------------------------------------------------------------------
// Trusted bridge to the standard library's UTF-8 validation
// ---------------------------------------------------------------------------

/// Relies on `std::str::from_utf8`: it succeeds exactly on valid UTF-8 input
/// and returns the text those bytes spell (vstd's `decode_utf8`, the inverse
/// of the `encode_utf8` that vstd specifies for `str::as_bytes`).
#[verifier::external_body]
fn utf8_to_string(b: &[u8]) -> (r: Option<String>)
    ensures
        r is Some <==> valid_utf8(b@),
        r matches Some(s) ==> s@ == decode_utf8(b@),
{
    match std::str::from_utf8(b) {
        Ok(s) => Some(s.to_string()),
        Err(_) => None,
    }
}

// ---------------------------------------------------------------------------
// Small sequence facts used throughout the parsing proofs
// ---------------------------------------------------------------------------

proof fn lemma_concat_parts(a: Seq<u8>, b: Seq<u8>)
    ensures
        (a + b).len() == a.len() + b.len(),
        (a + b).take(a.len() as int) == a,
        (a + b).skip(a.len() as int) == b,
{
    assert((a + b).take(a.len() as int) =~= a);
    assert((a + b).skip(a.len() as int) =~= b);
}

proof fn lemma_add_assoc(a: Seq<u8>, b: Seq<u8>, c: Seq<u8>)
    ensures
        (a + b) + c == a + (b + c),
{
    assert((a + b) + c =~= a + (b + c));
}

proof fn lemma_skip_of_skip(b: Seq<u8>, i: int, j: int)
    requires
        0 <= i,
        0 <= j,
        i + j <= b.len(),
    ensures
        b.skip(i).skip(j) == b.skip(i + j),
{
    assert(b.skip(i).skip(j) =~= b.skip(i + j));
}

// ---------------------------------------------------------------------------
// Parsing of one text field
// ---------------------------------------------------------------------------

/// Parse one length-prefixed text field at `pos`. On success the consumed
/// bytes are exactly the encoding of the returned text; on failure no text
/// field encoding is a prefix of the remaining bytes.
fn parse_str(b: &[u8], pos: usize) -> (r: Result<(String, usize), ()>)
    requires
        pos <= b@.len(),
    ensures
        match r {
            Ok((s, end)) => {
                &&& pos < end <= b@.len()
                &&& b@.subrange(pos as int, end as int) == spec_encode_str(s@)
                &&& end - pos == spec_encode_str(s@).len()
            },
            Err(_) => !starts_with_str(b@.skip(pos as int)),
        },
{
    let n: usize = b.len();
    let ghost tail = b@.skip(pos as int);
    proof {
        lemma_auto_spec_u64_to_from_le_bytes();
        assert(usize::MAX <= u64::MAX) by (nonlinear_arith);
    }
    if n - pos < 8 {
        proof {
            if starts_with_str(tail) {
                let (s, rest) = choose|s: Seq<char>, rest: Seq<u8>|
                    tail == spec_encode_str(s) + rest;
                assert(spec_encode_str(s).len() >= 8);
                assert(tail.len() >= 8);
            }
        }
        return Err(());
    }
    let lenfield: u64 = u64_from_le_bytes(slice_subrange(b, pos, pos + 8));
    let ghost lenbytes = b@.subrange(pos as int, pos as int + 8);
    let rem8: usize = n - pos - 8;
    proof {
        assert(tail.take(8) =~= lenbytes);
    }
    if lenfield > rem8 as u64 {
        proof {
            if starts_with_str(tail) {
                let (s, rest) = choose|s: Seq<char>, rest: Seq<u8>|
                    tail == spec_encode_str(s) + rest;
                let u = encode_utf8(s);
                lemma_concat_parts(spec_encode_str(s), rest);
                lemma_concat_parts(spec_u64_to_le_bytes(u.len() as u64), u);
                assert(spec_encode_str(s).take(8) =~= spec_u64_to_le_bytes(u.len() as u64));
                assert(tail.take(8) =~= spec_encode_str(s).take(8));
                if u.len() > u64::MAX {
                    assert(tail.len() >= 8 + u.len());
                } else {
                    assert(u.len() as u64 == lenfield);
                    assert(tail.len() >= 8 + u.len());
                }
            }
        }
        return Err(());
    }
    let l: usize = lenfield as usize;
    let end: usize = pos + 8 + l;
    let body = slice_subrange(b, pos + 8, end);
    let ghost bodyseq = b@.subrange(pos as int + 8, end as int);
    match utf8_to_string(body) {
        Some(s) => {
            proof {
                decode_utf8_encode_utf8(bodyseq);
                assert(encode_utf8(s@) == bodyseq);
                assert(b@.subrange(pos as int, end as int) =~= spec_u64_to_le_bytes(
                    encode_utf8(s@).len() as u64) + encode_utf8(s@));
            }
            Ok((s, end))
        },
        None => {
            proof {
                if starts_with_str(tail) {
                    let (s, rest) = choose|s: Seq<char>, rest: Seq<u8>|
                        tail == spec_encode_str(s) + rest;
                    let u = encode_utf8(s);
                    lemma_concat_parts(spec_encode_str(s), rest);
                    lemma_concat_parts(spec_u64_to_le_bytes(u.len() as u64), u);
                    assert(spec_encode_str(s).take(8) =~= spec_u64_to_le_bytes(
                        u.len() as u64));
                    assert(tail.take(8) =~= spec_encode_str(s).take(8));
                    if u.len() > u64::MAX {
                        assert(tail.len() >= 8 + u.len());
                        assert(false);
                    }
                    assert(u.len() as u64 == lenfield);
                    assert(u.len() == l);
                    assert(spec_encode_str(s).skip(8) =~= u + rest.take(0));
                    assert(tail.skip(8).take(l as int) =~= u) by {
                        assert(tail.skip(8) == u + rest) by {
                            assert((spec_encode_str(s) + rest).skip(8) =~= u + rest);
                        }
                        assert((u + rest).take(l as int) =~= u);
                    }
                    assert(tail.skip(8).take(l as int) =~= bodyseq);
                    encode_utf8_valid_utf8(s);
                    assert(false);
                }
            }
            Err(())
        },
    }
}

/// Whether some encoding of an optional text field is a prefix of these
/// bytes.
pub open spec fn starts_with_opt_str(t: Seq<u8>) -> bool {
    exists|o: Option<Seq<char>>, rest: Seq<u8>| t == spec_encode_opt_str(o) + rest
}

/// Whether some encoding of an optional 32-bit value is a prefix of these
/// bytes.
pub open spec fn starts_with_opt_u32(t: Seq<u8>) -> bool {
    exists|o: Option<u32>, rest: Seq<u8>| t == spec_encode_opt_u32(o) + rest
}

/// Whether some level encoding is a prefix of these bytes.
pub open spec fn starts_with_level(t: Seq<u8>) -> bool {
    exists|l: Level, rest: Seq<u8>| t == spec_encode_level(l) + rest
}

proof fn lemma_u64_i64_roundtrip(x: u64)
    ensures
        ((x as i64) as u64) == x,
{
    assert(((x as i64) as u64) == x) by (bit_vector);
}

/// Parse one 8-byte little-endian field at `pos`.
fn parse_u64_field(b: &[u8], pos: usize) -> (r: Result<(u64, usize), ()>)
    requires
        pos <= b@.len(),
    ensures
        match r {
            Ok((x, end)) => {
                &&& end == pos + 8 <= b@.len()
                &&& b@.subrange(pos as int, end as int) == spec_u64_to_le_bytes(x)
            },
            Err(_) => b@.len() - pos < 8,
        },
{
    let n: usize = b.len();
    if n - pos < 8 {
        return Err(());
    }
    let x: u64 = u64_from_le_bytes(slice_subrange(b, pos, pos + 8));
    proof {
        lemma_auto_spec_u64_to_from_le_bytes();
        assert(spec_u64_to_le_bytes(spec_u64_from_le_bytes(b@.subrange(
            pos as int, pos as int + 8))) == b@.subrange(pos as int, pos as int + 8));
    }
    Ok((x, pos + 8))
}

/// Parse one signed 64-bit field at `pos`.
fn parse_i64(b: &[u8], pos: usize) -> (r: Result<(i64, usize), ()>)
    requires
        pos <= b@.len(),
    ensures
        match r {
            Ok((x, end)) => {
                &&& end == pos + 8 <= b@.len()
                &&& b@.subrange(pos as int, end as int) == spec_encode_i64(x)
            },
            Err(_) => b@.len() - pos < 8,
        },
{
    match parse_u64_field(b, pos) {
        Ok((x, end)) => {
            proof {
                lemma_u64_i64_roundtrip(x);
            }
            Ok((x as i64, end))
        },
        Err(e) => Err(e),
    }
}

/// Parse one log level tag byte at `pos`.
fn parse_level(b: &[u8], pos: usize) -> (r: Result<(Level, usize), ()>)
    requires
        pos <= b@.len(),
    ensures
        match r {
            Ok((l, end)) => {
                &&& end == pos + 1 <= b@.len()
                &&& b@.subrange(pos as int, end as int) == spec_encode_level(l)
            },
            Err(_) => !starts_with_level(b@.skip(pos as int)),
        },
{
    let n: usize = b.len();
    let ghost tail = b@.skip(pos as int);
    if n - pos < 1 {
        proof {
            if starts_with_level(tail) {
                let (l, rest) = choose|l: Level, rest: Seq<u8>|
                    tail == spec_encode_level(l) + rest;
                assert(tail.len() >= 1);
            }
        }
        return Err(());
    }
    let t: u8 = *slice_index_get(b, pos);
    proof {
        assert(tail[0] == b@[pos as int]);
    }
    let l: Level = match t {
        0u8 => Level::Error,
        1u8 => Level::Warn,
        2u8 => Level::Info,
        3u8 => Level::Debug,
        4u8 => Level::Trace,
        _ => {
            proof {
                if starts_with_level(tail) {
                    let (l, rest) = choose|l: Level, rest: Seq<u8>|
                        tail == spec_encode_level(l) + rest;
                    assert(tail[0] == level_tag(l));
                }
            }
            return Err(());
        },
    };
    proof {
        assert(b@.subrange(pos as int, pos as int + 1) =~= spec_encode_level(l));
    }
    Ok((l, pos + 1))
}

/// Parse one optional text field at `pos`.
fn parse_opt_str(b: &[u8], pos: usize) -> (r: Result<(Option<String>, usize), ()>)
    requires
        pos <= b@.len(),
    ensures
        match r {
            Ok((o, end)) => {
                &&& pos < end <= b@.len()
                &&& b@.subrange(pos as int, end as int) == spec_encode_opt_str(
                    crate::command::view_of_opt_string(o),
                )
            },
            Err(_) => !starts_with_opt_str(b@.skip(pos as int)),
        },
{
    let n: usize = b.len();
    let ghost tail = b@.skip(pos as int);
    if n - pos < 1 {
        proof {
            if starts_with_opt_str(tail) {
                let (o, rest) = choose|o: Option<Seq<char>>, rest: Seq<u8>|
                    tail == spec_encode_opt_str(o) + rest;
                assert(spec_encode_opt_str(o).len() >= 1);
                assert(tail.len() >= 1);
                assert(false);
            }
        }
        return Err(());
    }
    let t: u8 = *slice_index_get(b, pos);
    proof {
        assert(tail[0] == b@[pos as int]);
    }
    if t == 0 {
        proof {
            assert(b@.subrange(pos as int, pos as int + 1) =~= spec_encode_opt_str(
                Option::<Seq<char>>::None));
        }
        Ok((None, pos + 1))
    } else if t == 1 {
        match parse_str(b, pos + 1) {
            Ok((s, end)) => {
                proof {
                    assert(b@.subrange(pos as int, end as int) =~= seq![1u8] + b@.subrange(
                        pos as int + 1, end as int));
                }
                Ok((Some(s), end))
            },
            Err(_) => {
                proof {
                    if starts_with_opt_str(tail) {
                        let (o, rest) = choose|o: Option<Seq<char>>, rest: Seq<u8>|
                            tail == spec_encode_opt_str(o) + rest;
                        match o {
                            Option::None => {
                                assert(tail[0] == 0u8);
                            },
                            Option::Some(s) => {
                                assert(tail.skip(1) =~= spec_encode_str(s) + rest) by {
                                    assert(((seq![1u8] + spec_encode_str(s)) + rest).skip(1)
                                        =~= spec_encode_str(s) + rest);
                                }
                                lemma_skip_of_skip(b@, pos as int, 1);
                                assert(starts_with_str(b@.skip(pos as int + 1)));
                            },
                        }
                        assert(false);
                    }
                }
                Err(())
            },
        }
    } else {
        proof {
            if starts_with_opt_str(tail) {
                let (o, rest) = choose|o: Option<Seq<char>>, rest: Seq<u8>|
                    tail == spec_encode_opt_str(o) + rest;
                match o {
                    Option::None => {
                        assert(tail[0] == 0u8);
                    },
                    Option::Some(s) => {
                        assert(tail[0] == 1u8);
                    },
                }
                assert(false);
            }
        }
        Err(())
    }
}

/// Parse one optional 32-bit field at `pos`.
fn parse_opt_u32(b: &[u8], pos: usize) -> (r: Result<(Option<u32>, usize), ()>)
    requires
        pos <= b@.len(),
    ensures
        match r {
            Ok((o, end)) => {
                &&& pos < end <= b@.len()
                &&& b@.subrange(pos as int, end as int) == spec_encode_opt_u32(o)
            },
            Err(_) => !starts_with_opt_u32(b@.skip(pos as int)),
        },
{
    let n: usize = b.len();
    let ghost tail = b@.skip(pos as int);
    proof {
        lemma_auto_spec_u32_to_from_le_bytes();
    }
    if n - pos < 1 {
        proof {
            if starts_with_opt_u32(tail) {
                let (o, rest) = choose|o: Option<u32>, rest: Seq<u8>|
                    tail == spec_encode_opt_u32(o) + rest;
                assert(spec_encode_opt_u32(o).len() >= 1);
                assert(tail.len() >= 1);
                assert(false);
            }
        }
        return Err(());
    }
    let t: u8 = *slice_index_get(b, pos);
    proof {
        assert(tail[0] == b@[pos as int]);
    }
    if t == 0 {
        proof {
            assert(b@.subrange(pos as int, pos as int + 1) =~= spec_encode_opt_u32(
                Option::<u32>::None));
        }
        Ok((None, pos + 1))
    } else if t == 1 {
        if n - pos - 1 < 4 {
            proof {
                if starts_with_opt_u32(tail) {
                    let (o, rest) = choose|o: Option<u32>, rest: Seq<u8>|
                        tail == spec_encode_opt_u32(o) + rest;
                    match o {
                        Option::None => {
                            assert(tail[0] == 0u8);
                            assert(false);
                        },
                        Option::Some(x) => {
                            assert(spec_u32_to_le_bytes(x).len() == 4);
                            assert(spec_encode_opt_u32(o).len() == 5);
                            assert(tail.len() >= 5);
                            assert(false);
                        },
                    }
                    assert(false);
                }
            }
            return Err(());
        }
        let x: u32 = u32_from_le_bytes(slice_subrange(b, pos + 1, pos + 5));
        proof {
            assert(spec_u32_to_le_bytes(spec_u32_from_le_bytes(b@.subrange(
                pos as int + 1, pos as int + 5))) == b@.subrange(pos as int + 1, pos as int + 5));
            assert(b@.subrange(pos as int, pos as int + 5) =~= seq![1u8] + b@.subrange(
                pos as int + 1, pos as int + 5));
        }
        Ok((Some(x), pos + 5))
    } else {
        proof {
            if starts_with_opt_u32(tail) {
                let (o, rest) = choose|o: Option<u32>, rest: Seq<u8>|
                    tail == spec_encode_opt_u32(o) + rest;
                match o {
                    Option::None => {
                        assert(tail[0] == 0u8);
                    },
                    Option::Some(x) => {
                        assert(tail[0] == 1u8);
                    },
                }
                assert(false);
            }
        }
        Err(())
    }
}

// ---------------------------------------------------------------------------
// Prefix uniqueness: two encodings that begin the same byte string agree
// ---------------------------------------------------------------------------

/// A text field encoding determines the text and everything after it.
proof fn lemma_str_prefix_unique(s1: Seq<char>, r1: Seq<u8>, s2: Seq<char>, r2: Seq<u8>)
    requires
        spec_encode_str(s1) + r1 == spec_encode_str(s2) + r2,
        (spec_encode_str(s1) + r1).len() <= u64::MAX,
    ensures
        s1 == s2,
        r1 == r2,
{
    lemma_auto_spec_u64_to_from_le_bytes();
    let u1 = encode_utf8(s1);
    let u2 = encode_utf8(s2);
    let whole = spec_encode_str(s1) + r1;
    assert(whole.len() == 8 + u1.len() + r1.len());
    assert(whole.len() == 8 + u2.len() + r2.len());
    assert(whole.take(8) =~= spec_u64_to_le_bytes(u1.len() as u64));
    assert(whole.take(8) =~= spec_u64_to_le_bytes(u2.len() as u64));
    assert(spec_u64_from_le_bytes(spec_u64_to_le_bytes(u1.len() as u64)) == u1.len() as u64);
    assert(spec_u64_from_le_bytes(spec_u64_to_le_bytes(u2.len() as u64)) == u2.len() as u64);
    assert(u1.len() == u2.len());
    assert(whole.subrange(8, 8 + u1.len() as int) =~= u1);
    assert(whole.subrange(8, 8 + u2.len() as int) =~= u2);
    encode_utf8_decode_utf8(s1);
    encode_utf8_decode_utf8(s2);
    assert(s1 == s2);
    assert(r1 =~= whole.skip(8 + u1.len() as int));
    assert(r2 =~= whole.skip(8 + u2.len() as int));
}

/// Every element of a text list costs at least its length prefix.
proof fn lemma_str_list_min_len(v: Seq<Seq<char>>)
    ensures
        spec_encode_str_list(v).len() >= 8 * v.len(),
    decreases v.len(),
{
    if v.len() > 0 {
        lemma_auto_spec_u64_to_from_le_bytes();
        lemma_str_list_min_len(v.drop_first());
    }
}

/// Encoding a concatenation of lists concatenates the encodings.
proof fn lemma_str_list_append(a: Seq<Seq<char>>, b: Seq<Seq<char>>)
    ensures
        spec_encode_str_list(a + b) == spec_encode_str_list(a) + spec_encode_str_list(b),
    decreases a.len(),
{
    if a.len() == 0 {
        assert(a + b =~= b);
        assert(spec_encode_str_list(a) + spec_encode_str_list(b) =~= spec_encode_str_list(b));
    } else {
        assert((a + b).drop_first() =~= a.drop_first() + b);
        lemma_str_list_append(a.drop_first(), b);
        assert(spec_encode_str_list(a + b) =~= spec_encode_str_list(a)
            + spec_encode_str_list(b));
    }
}


/// Encoding a one-element list is encoding its element.
proof fn lemma_str_list_singleton(s: Seq<char>)
    ensures
        spec_encode_str_list(seq![s]) == spec_encode_str(s),
{
    let v: Seq<Seq<char>> = seq![s];
    assert(v.drop_first() =~= Seq::<Seq<char>>::empty());
    assert(spec_encode_str_list(Seq::<Seq<char>>::empty()) =~= Seq::<u8>::empty());
    assert(spec_encode_str_list(v) =~= spec_encode_str(s));
}

/// A text list encoding of known element count determines the elements and
/// everything after them.
proof fn lemma_str_list_prefix_unique(
    l1: Seq<Seq<char>>,
    r1: Seq<u8>,
    l2: Seq<Seq<char>>,
    r2: Seq<u8>,
)
    requires
        l1.len() == l2.len(),
        spec_encode_str_list(l1) + r1 == spec_encode_str_list(l2) + r2,
        (spec_encode_str_list(l1) + r1).len() <= u64::MAX,
    ensures
        l1 == l2,
        r1 == r2,
    decreases l1.len(),
{
    if l1.len() == 0 {
        assert(r1 =~= spec_encode_str_list(l1) + r1);
        assert(r2 =~= spec_encode_str_list(l2) + r2);
        assert(l1 =~= l2);
    } else {
        let whole = spec_encode_str_list(l1) + r1;
        assert(whole =~= spec_encode_str(l1[0]) + (spec_encode_str_list(l1.drop_first()) + r1));
        assert(whole =~= spec_encode_str(l2[0]) + (spec_encode_str_list(l2.drop_first()) + r2));
        lemma_str_prefix_unique(
            l1[0],
            spec_encode_str_list(l1.drop_first()) + r1,
            l2[0],
            spec_encode_str_list(l2.drop_first()) + r2,
        );
        lemma_str_list_prefix_unique(l1.drop_first(), r1, l2.drop_first(), r2);
        assert forall|j: int| 0 <= j < l1.len() implies l1[j] == l2[j] by {
            if j > 0 {
                assert(l1[j] == l1.drop_first()[j - 1]);
                assert(l2[j] == l2.drop_first()[j - 1]);
            }
        }
        assert(l1 =~= l2);
    }
}

proof fn lemma_i64_u64_roundtrip(x: i64)
    ensures
        ((x as u64) as i64) == x,
{
    assert(((x as u64) as i64) == x) by (bit_vector);
}

/// An optional text field encoding determines the value and everything
/// after it.
proof fn lemma_opt_str_prefix_unique(
    o1: Option<Seq<char>>,
    r1: Seq<u8>,
    o2: Option<Seq<char>>,
    r2: Seq<u8>,
)
    requires
        spec_encode_opt_str(o1) + r1 == spec_encode_opt_str(o2) + r2,
        (spec_encode_opt_str(o1) + r1).len() <= u64::MAX,
    ensures
        o1 == o2,
        r1 == r2,
{
    let whole = spec_encode_opt_str(o1) + r1;
    assert(whole[0] == spec_encode_opt_str(o1)[0]);
    assert(whole[0] == spec_encode_opt_str(o2)[0]);
    match (o1, o2) {
        (Option::None, Option::None) => {
            assert(r1 =~= whole.skip(1));
            assert(r2 =~= whole.skip(1));
        },
        (Option::Some(s1), Option::Some(s2)) => {
            assert(whole.skip(1) =~= spec_encode_str(s1) + r1) by {
                assert(((seq![1u8] + spec_encode_str(s1)) + r1).skip(1) =~= spec_encode_str(s1)
                    + r1);
            }
            assert(whole.skip(1) =~= spec_encode_str(s2) + r2) by {
                assert(((seq![1u8] + spec_encode_str(s2)) + r2).skip(1) =~= spec_encode_str(s2)
                    + r2);
            }
            lemma_str_prefix_unique(s1, r1, s2, r2);
        },
        (Option::None, Option::Some(s2)) => {
            assert(spec_encode_opt_str(o1)[0] == 0u8);
            assert(spec_encode_opt_str(o2)[0] == 1u8);
        },
        (Option::Some(s1), Option::None) => {
            assert(spec_encode_opt_str(o1)[0] == 1u8);
            assert(spec_encode_opt_str(o2)[0] == 0u8);
        },
    }
}

/// A level tag determines the level and everything after it.
proof fn lemma_level_prefix_unique(l1: Level, r1: Seq<u8>, l2: Level, r2: Seq<u8>)
    requires
        spec_encode_level(l1) + r1 == spec_encode_level(l2) + r2,
    ensures
        l1 == l2,
        r1 == r2,
{
    let whole = spec_encode_level(l1) + r1;
    assert(whole[0] == level_tag(l1));
    assert(whole[0] == level_tag(l2));
    assert(r1 =~= whole.skip(1));
    assert(r2 =~= whole.skip(1));
}

/// A signed 64-bit field encoding determines the value and everything after
/// it.
proof fn lemma_i64_prefix_unique(x1: i64, r1: Seq<u8>, x2: i64, r2: Seq<u8>)
    requires
        spec_encode_i64(x1) + r1 == spec_encode_i64(x2) + r2,
    ensures
        x1 == x2,
        r1 == r2,
{
    lemma_auto_spec_u64_to_from_le_bytes();
    let whole = spec_encode_i64(x1) + r1;
    assert(whole.take(8) =~= spec_u64_to_le_bytes(x1 as u64));
    assert(whole.take(8) =~= spec_u64_to_le_bytes(x2 as u64));
    assert(x1 as u64 == x2 as u64);
    lemma_i64_u64_roundtrip(x1);
    lemma_i64_u64_roundtrip(x2);
    assert(r1 =~= whole.skip(8));
    assert(r2 =~= whole.skip(8));
}

/// An optional 32-bit field encoding determines the value and everything
/// after it.
proof fn lemma_opt_u32_prefix_unique(o1: Option<u32>, r1: Seq<u8>, o2: Option<u32>, r2: Seq<u8>)
    requires
        spec_encode_opt_u32(o1) + r1 == spec_encode_opt_u32(o2) + r2,
    ensures
        o1 == o2,
        r1 == r2,
{
    lemma_auto_spec_u32_to_from_le_bytes();
    let whole = spec_encode_opt_u32(o1) + r1;
    assert(whole[0] == spec_encode_opt_u32(o1)[0]);
    assert(whole[0] == spec_encode_opt_u32(o2)[0]);
    match (o1, o2) {
        (Option::None, Option::None) => {
            assert(r1 =~= whole.skip(1));
            assert(r2 =~= whole.skip(1));
        },
        (Option::Some(x1), Option::Some(x2)) => {
            assert(whole.subrange(1, 5) =~= spec_u32_to_le_bytes(x1)) by {
                assert(((seq![1u8] + spec_u32_to_le_bytes(x1)) + r1).subrange(1, 5)
                    =~= spec_u32_to_le_bytes(x1));
            }
            assert(whole.subrange(1, 5) =~= spec_u32_to_le_bytes(x2)) by {
                assert(((seq![1u8] + spec_u32_to_le_bytes(x2)) + r2).subrange(1, 5)
                    =~= spec_u32_to_le_bytes(x2));
            }
            assert(x1 == x2);
            assert(r1 =~= whole.skip(5));
            assert(r2 =~= whole.skip(5));
        },
        (Option::None, Option::Some(x2)) => {
            assert(spec_encode_opt_u32(o1)[0] == 0u8);
            assert(spec_encode_opt_u32(o2)[0] == 1u8);
        },
        (Option::Some(x1), Option::None) => {
            assert(spec_encode_opt_u32(o1)[0] == 1u8);
            assert(spec_encode_opt_u32(o2)[0] == 0u8);
        },
    }
}

/// Whether some argument list encoding is a prefix of these bytes.
pub open spec fn starts_with_args(t: Seq<u8>) -> bool {
    exists|v: Seq<Seq<char>>, rest: Seq<u8>| t == spec_encode_args(v) + rest
}

/// Parse one argument list at `pos`.
fn parse_args(b: &[u8], pos: usize) -> (r: Result<(Vec<String>, usize), ()>)
    requires
        pos <= b@.len(),
    ensures
        match r {
            Ok((v, end)) => {
                &&& pos < end <= b@.len()
                &&& b@.subrange(pos as int, end as int) == spec_encode_args(v.deep_view())
            },
            Err(_) => !starts_with_args(b@.skip(pos as int)),
        },
{
    let n: usize = b.len();
    let ghost tail = b@.skip(pos as int);
    proof {
        lemma_auto_spec_u64_to_from_le_bytes();
        assert(usize::MAX <= u64::MAX) by (nonlinear_arith);
    }
    let cnt: u64 = match parse_u64_field(b, pos) {
        Ok((cnt, _)) => cnt,
        Err(_) => {
            proof {
                if starts_with_args(tail) {
                    let (v, rest) = choose|v: Seq<Seq<char>>, rest: Seq<u8>|
                        tail == spec_encode_args(v) + rest;
                    assert(spec_encode_args(v).len() >= 8);
                    assert(tail.len() >= 8);
                    assert(tail.len() == b@.len() - pos);
                    assert(false);
                }
            }
            return Err(());
        },
    };
    let ghost cntbytes = b@.subrange(pos as int, pos as int + 8);
    let mut acc: Vec<String> = Vec::new();
    let mut i: u64 = 0;
    let mut cur: usize = pos + 8;
    proof {
        assert(b@.subrange(pos as int + 8, cur as int)
            =~= spec_encode_str_list(acc.deep_view()));
    }
    while i < cnt
        invariant
            pos + 8 <= cur <= b@.len() <= u64::MAX,
            i <= cnt,
            acc.deep_view().len() == i,
            b@.subrange(pos as int + 8, cur as int) == spec_encode_str_list(acc.deep_view()),
            cntbytes == b@.subrange(pos as int, pos as int + 8),
            cntbytes == spec_u64_to_le_bytes(cnt),
            tail == b@.skip(pos as int),
        decreases cnt - i,
    {
        match parse_str(b, cur) {
            Ok((s, end)) => {
                proof {
                    let accv = acc.deep_view();
                    let withs = accv + seq![s@];
                    lemma_str_list_append(accv, seq![s@]);
                    lemma_str_list_singleton(s@);
                    assert(b@.subrange(pos as int + 8, end as int) =~= b@.subrange(
                        pos as int + 8, cur as int) + b@.subrange(cur as int, end as int));
                    assert(b@.subrange(pos as int + 8, end as int) == spec_encode_str_list(
                        withs));
                }
                let ghost oldacc = acc.deep_view();
                acc.push(s);
                proof {
                    assert(acc.deep_view() =~= oldacc + seq![acc@[acc@.len() - 1]@]);
                }
                cur = end;
                i = i + 1;
            },
            Err(_) => {
                proof {
                    lemma_auto_spec_u64_to_from_le_bytes();
                    if starts_with_args(tail) {
                        let (v, rest) = choose|v: Seq<Seq<char>>, rest: Seq<u8>|
                            tail == spec_encode_args(v) + rest;
                        // The count field pins the ghost list's length.
                        assert(tail.take(8) =~= spec_u64_to_le_bytes(v.len() as u64));
                        assert(tail.take(8) =~= cntbytes);
                        lemma_str_list_min_len(v);
                        if v.len() > u64::MAX {
                            assert(spec_encode_args(v).len() >= 8 * v.len());
                            assert(tail.len() == spec_encode_args(v).len() + rest.len());
                            assert(8 * v.len() >= 8 * (u64::MAX + 1)) by (nonlinear_arith)
                                requires v.len() > u64::MAX;
                            assert(tail.len() <= b@.len());
                            assert(false);
                        }
                        assert(v.len() as u64 == cnt);
                        assert(v.len() == cnt);
                        // Split the ghost list at the elements parsed so far.
                        let k = i as int;
                        assert(v =~= v.take(k) + v.skip(k));
                        lemma_str_list_append(v.take(k), v.skip(k));
                        assert(v.skip(k) =~= seq![v[k]] + v.skip(k + 1));
                        lemma_str_list_append(seq![v[k]], v.skip(k + 1));
                        lemma_str_list_singleton(v[k]);
                        let ghostrest = spec_encode_str(v[k])
                            + (spec_encode_str_list(v.skip(k + 1)) + rest);
                        assert(tail.skip(8) =~= spec_encode_str_list(v.take(k)) + ghostrest);
                        assert(tail.skip(8) =~= b@.skip(pos as int + 8)) by {
                            lemma_skip_of_skip(b@, pos as int, 8);
                        }
                        assert(b@.skip(pos as int + 8) =~= b@.subrange(pos as int + 8,
                            cur as int) + b@.skip(cur as int));
                        lemma_str_list_prefix_unique(
                            acc.deep_view(),
                            b@.skip(cur as int),
                            v.take(k),
                            ghostrest,
                        );
                        assert(b@.skip(cur as int) == ghostrest);
                        assert(ghostrest =~= spec_encode_str(v[k])
                            + (spec_encode_str_list(v.skip(k + 1)) + rest));
                        assert(starts_with_str(b@.skip(cur as int)));
                        assert(false);
                    }
                }
                return Err(());
            },
        }
    }
    proof {
        assert(acc.deep_view().len() as u64 == cnt);
        assert(b@.subrange(pos as int, cur as int) =~= cntbytes + b@.subrange(
            pos as int + 8, cur as int));
        assert(b@.subrange(pos as int, cur as int) == spec_encode_args(acc.deep_view()));
    }
    Ok((acc, cur))
}

/// Append the wire form of one argument list.
fn emit_args(dst: &mut Vec<u8>, v: &Vec<String>)
    ensures
        final(dst)@ == old(dst)@ + spec_encode_args(v.deep_view()),
{
    let lenb: Vec<u8> = u64_to_le_bytes(v.len() as u64);
    emit_slice(dst, lenb.as_slice());
    let ghost base = dst@;
    let mut i: usize = 0;
    proof {
        assert(v.deep_view().take(0) =~= Seq::<Seq<char>>::empty());
        assert(dst@ =~= base + spec_encode_str_list(v.deep_view().take(0)));
    }
    while i < v.len()
        invariant
            i <= v@.len(),
            v.deep_view().len() == v@.len(),
            dst@ == base + spec_encode_str_list(v.deep_view().take(i as int)),
        decreases v@.len() - i,
    {
        emit_str(dst, v[i].as_str());
        proof {
            let vv = v.deep_view();
            assert(vv.take(i as int + 1) =~= vv.take(i as int) + seq![vv[i as int]]);
            lemma_str_list_append(vv.take(i as int), seq![vv[i as int]]);
            lemma_str_list_singleton(vv[i as int]);
            assert(vv[i as int] == v@[i as int]@);
            assert(dst@ =~= base + spec_encode_str_list(vv.take(i as int + 1)));
        }
        i = i + 1;
    }
    proof {
        assert(v.deep_view().take(v@.len() as int) =~= v.deep_view());
        assert(dst@ =~= old(dst)@ + spec_encode_args(v.deep_view()));
    }
}

// ---------------------------------------------------------------------------
// Log records
// ---------------------------------------------------------------------------

/// Whether some log record encoding is a prefix of these bytes.
pub open spec fn starts_with_log_msg(t: Seq<u8>) -> bool {
    exists|m: LogMessageBufView, rest: Seq<u8>| t == spec_encode_log_msg(m) + rest
}

/// Right-nested decomposition of a log record encoding followed by more
/// bytes.
proof fn lemma_log_msg_assoc(m: LogMessageBufView, rest: Seq<u8>)
    ensures
        spec_encode_log_msg(m) + rest == spec_encode_opt_str(m.thread_name) + (
        spec_encode_opt_str(m.thread_id) + (spec_encode_level(m.level) + (spec_encode_str(
            m.message,
        ) + (spec_encode_i64(m.local_time) + (spec_encode_opt_str(m.module) + (
        spec_encode_opt_str(m.file) + (spec_encode_opt_u32(m.line) + rest))))))),
{
    let e1 = spec_encode_opt_str(m.thread_name);
    let e2 = spec_encode_opt_str(m.thread_id);
    let e3 = spec_encode_level(m.level);
    let e4 = spec_encode_str(m.message);
    let e5 = spec_encode_i64(m.local_time);
    let e6 = spec_encode_opt_str(m.module);
    let e7 = spec_encode_opt_str(m.file);
    let e8 = spec_encode_opt_u32(m.line);
    lemma_add_assoc(e1 + e2 + e3 + e4 + e5 + e6 + e7, e8, rest);
    lemma_add_assoc(e1 + e2 + e3 + e4 + e5 + e6, e7, e8 + rest);
    lemma_add_assoc(e1 + e2 + e3 + e4 + e5, e6, e7 + (e8 + rest));
    lemma_add_assoc(e1 + e2 + e3 + e4, e5, e6 + (e7 + (e8 + rest)));
    lemma_add_assoc(e1 + e2 + e3, e4, e5 + (e6 + (e7 + (e8 + rest))));
    lemma_add_assoc(e1 + e2, e3, e4 + (e5 + (e6 + (e7 + (e8 + rest)))));
    lemma_add_assoc(e1, e2, e3 + (e4 + (e5 + (e6 + (e7 + (e8 + rest))))));
}

proof fn lemma_log_msg_refute1(
    b: Seq<u8>,
    pos: int,
)
    requires
        b.len() <= u64::MAX,
        0 <= pos <= b.len(),
        !starts_with_opt_str(b.skip(pos)),
    ensures
        !starts_with_log_msg(b.skip(pos)),
{
    if starts_with_log_msg(b.skip(pos)) {
        let (m, rest) = choose|m: LogMessageBufView, rest: Seq<u8>|
            b.skip(pos) == spec_encode_log_msg(m) + rest;
        lemma_log_msg_assoc(m, rest);
        lemma_auto_spec_u64_to_from_le_bytes();
        let t9 = rest;
        let t8 = spec_encode_opt_u32(m.line) + t9;
        let t7 = spec_encode_opt_str(m.file) + t8;
        let t6 = spec_encode_opt_str(m.module) + t7;
        let t5 = spec_encode_i64(m.local_time) + t6;
        let t4 = spec_encode_str(m.message) + t5;
        let t3 = spec_encode_level(m.level) + t4;
        let t2 = spec_encode_opt_str(m.thread_id) + t3;
        let t1 = spec_encode_opt_str(m.thread_name) + t2;
        assert(b.skip(pos) == t1);
        assert(starts_with_opt_str(b.skip(pos)));
        assert(false);
    }
}

proof fn lemma_log_msg_refute2(
    b: Seq<u8>,
    pos: int,
    p1: int,
    g1: Option<Seq<char>>,
)
    requires
        b.len() <= u64::MAX,
        0 <= pos <= p1 <= b.len(),
        b.subrange(pos, p1) == spec_encode_opt_str(g1),
        !starts_with_opt_str(b.skip(p1)),
    ensures
        !starts_with_log_msg(b.skip(pos)),
{
    if starts_with_log_msg(b.skip(pos)) {
        let (m, rest) = choose|m: LogMessageBufView, rest: Seq<u8>|
            b.skip(pos) == spec_encode_log_msg(m) + rest;
        lemma_log_msg_assoc(m, rest);
        lemma_auto_spec_u64_to_from_le_bytes();
        let t9 = rest;
        let t8 = spec_encode_opt_u32(m.line) + t9;
        let t7 = spec_encode_opt_str(m.file) + t8;
        let t6 = spec_encode_opt_str(m.module) + t7;
        let t5 = spec_encode_i64(m.local_time) + t6;
        let t4 = spec_encode_str(m.message) + t5;
        let t3 = spec_encode_level(m.level) + t4;
        let t2 = spec_encode_opt_str(m.thread_id) + t3;
        let t1 = spec_encode_opt_str(m.thread_name) + t2;
        assert(b.skip(pos) == t1);
        assert(b.skip(pos) =~= b.subrange(pos, p1) + b.skip(p1));
        lemma_opt_str_prefix_unique(g1, b.skip(p1), m.thread_name, t2);
        assert(starts_with_opt_str(b.skip(p1)));
        assert(false);
    }
}

proof fn lemma_log_msg_refute3(
    b: Seq<u8>,
    pos: int,
    p1: int,
    g1: Option<Seq<char>>,
    p2: int,
    g2: Option<Seq<char>>,
)
    requires
        b.len() <= u64::MAX,
        0 <= pos <= p1 <= p2 <= b.len(),
        b.subrange(pos, p1) == spec_encode_opt_str(g1),
        b.subrange(p1, p2) == spec_encode_opt_str(g2),
        !starts_with_level(b.skip(p2)),
    ensures
        !starts_with_log_msg(b.skip(pos)),
{
    if starts_with_log_msg(b.skip(pos)) {
        let (m, rest) = choose|m: LogMessageBufView, rest: Seq<u8>|
            b.skip(pos) == spec_encode_log_msg(m) + rest;
        lemma_log_msg_assoc(m, rest);
        lemma_auto_spec_u64_to_from_le_bytes();
        let t9 = rest;
        let t8 = spec_encode_opt_u32(m.line) + t9;
        let t7 = spec_encode_opt_str(m.file) + t8;
        let t6 = spec_encode_opt_str(m.module) + t7;
        let t5 = spec_encode_i64(m.local_time) + t6;
        let t4 = spec_encode_str(m.message) + t5;
        let t3 = spec_encode_level(m.level) + t4;
        let t2 = spec_encode_opt_str(m.thread_id) + t3;
        let t1 = spec_encode_opt_str(m.thread_name) + t2;
        assert(b.skip(pos) == t1);
        assert(b.skip(pos) =~= b.subrange(pos, p1) + b.skip(p1));
        lemma_opt_str_prefix_unique(g1, b.skip(p1), m.thread_name, t2);
        assert(b.skip(p1) =~= b.subrange(p1, p2) + b.skip(p2));
        lemma_opt_str_prefix_unique(g2, b.skip(p2), m.thread_id, t3);
        assert(starts_with_level(b.skip(p2)));
        assert(false);
    }
}

proof fn lemma_log_msg_refute4(
    b: Seq<u8>,
    pos: int,
    p1: int,
    g1: Option<Seq<char>>,
    p2: int,
    g2: Option<Seq<char>>,
    p3: int,
    g3: Level,
)
    requires
        b.len() <= u64::MAX,
        0 <= pos <= p1 <= p2 <= p3 <= b.len(),
        b.subrange(pos, p1) == spec_encode_opt_str(g1),
        b.subrange(p1, p2) == spec_encode_opt_str(g2),
        b.subrange(p2, p3) == spec_encode_level(g3),
        !starts_with_str(b.skip(p3)),
    ensures
        !starts_with_log_msg(b.skip(pos)),
{
    if starts_with_log_msg(b.skip(pos)) {
        let (m, rest) = choose|m: LogMessageBufView, rest: Seq<u8>|
            b.skip(pos) == spec_encode_log_msg(m) + rest;
        lemma_log_msg_assoc(m, rest);
        lemma_auto_spec_u64_to_from_le_bytes();
        let t9 = rest;
        let t8 = spec_encode_opt_u32(m.line) + t9;
        let t7 = spec_encode_opt_str(m.file) + t8;
        let t6 = spec_encode_opt_str(m.module) + t7;
        let t5 = spec_encode_i64(m.local_time) + t6;
        let t4 = spec_encode_str(m.message) + t5;
        let t3 = spec_encode_level(m.level) + t4;
        let t2 = spec_encode_opt_str(m.thread_id) + t3;
        let t1 = spec_encode_opt_str(m.thread_name) + t2;
        assert(b.skip(pos) == t1);
        assert(b.skip(pos) =~= b.subrange(pos, p1) + b.skip(p1));
        lemma_opt_str_prefix_unique(g1, b.skip(p1), m.thread_name, t2);
        assert(b.skip(p1) =~= b.subrange(p1, p2) + b.skip(p2));
        lemma_opt_str_prefix_unique(g2, b.skip(p2), m.thread_id, t3);
        assert(b.skip(p2) =~= b.subrange(p2, p3) + b.skip(p3));
        lemma_level_prefix_unique(g3, b.skip(p3), m.level, t4);
        assert(starts_with_str(b.skip(p3)));
        assert(false);
    }
}

proof fn lemma_log_msg_refute5(
    b: Seq<u8>,
    pos: int,
    p1: int,
    g1: Option<Seq<char>>,
    p2: int,
    g2: Option<Seq<char>>,
    p3: int,
    g3: Level,
    p4: int,
    g4: Seq<char>,
)
    requires
        b.len() <= u64::MAX,
        0 <= pos <= p1 <= p2 <= p3 <= p4 <= b.len(),
        b.subrange(pos, p1) == spec_encode_opt_str(g1),
        b.subrange(p1, p2) == spec_encode_opt_str(g2),
        b.subrange(p2, p3) == spec_encode_level(g3),
        b.subrange(p3, p4) == spec_encode_str(g4),
        b.len() - p4 < 8,
    ensures
        !starts_with_log_msg(b.skip(pos)),
{
    if starts_with_log_msg(b.skip(pos)) {
        let (m, rest) = choose|m: LogMessageBufView, rest: Seq<u8>|
            b.skip(pos) == spec_encode_log_msg(m) + rest;
        lemma_log_msg_assoc(m, rest);
        lemma_auto_spec_u64_to_from_le_bytes();
        let t9 = rest;
        let t8 = spec_encode_opt_u32(m.line) + t9;
        let t7 = spec_encode_opt_str(m.file) + t8;
        let t6 = spec_encode_opt_str(m.module) + t7;
        let t5 = spec_encode_i64(m.local_time) + t6;
        let t4 = spec_encode_str(m.message) + t5;
        let t3 = spec_encode_level(m.level) + t4;
        let t2 = spec_encode_opt_str(m.thread_id) + t3;
        let t1 = spec_encode_opt_str(m.thread_name) + t2;
        assert(b.skip(pos) == t1);
        assert(b.skip(pos) =~= b.subrange(pos, p1) + b.skip(p1));
        lemma_opt_str_prefix_unique(g1, b.skip(p1), m.thread_name, t2);
        assert(b.skip(p1) =~= b.subrange(p1, p2) + b.skip(p2));
        lemma_opt_str_prefix_unique(g2, b.skip(p2), m.thread_id, t3);
        assert(b.skip(p2) =~= b.subrange(p2, p3) + b.skip(p3));
        lemma_level_prefix_unique(g3, b.skip(p3), m.level, t4);
        assert(b.skip(p3) =~= b.subrange(p3, p4) + b.skip(p4));
        lemma_str_prefix_unique(g4, b.skip(p4), m.message, t5);
        assert(b.skip(p4).len() >= 8);
        assert(false);
    }
}

proof fn lemma_log_msg_refute6(
    b: Seq<u8>,
    pos: int,
    p1: int,
    g1: Option<Seq<char>>,
    p2: int,
    g2: Option<Seq<char>>,
    p3: int,
    g3: Level,
    p4: int,
    g4: Seq<char>,
    p5: int,
    g5: i64,
)
    requires
        b.len() <= u64::MAX,
        0 <= pos <= p1 <= p2 <= p3 <= p4 <= p5 <= b.len(),
        b.subrange(pos, p1) == spec_encode_opt_str(g1),
        b.subrange(p1, p2) == spec_encode_opt_str(g2),
        b.subrange(p2, p3) == spec_encode_level(g3),
        b.subrange(p3, p4) == spec_encode_str(g4),
        b.subrange(p4, p5) == spec_encode_i64(g5),
        !starts_with_opt_str(b.skip(p5)),
    ensures
        !starts_with_log_msg(b.skip(pos)),
{
    if starts_with_log_msg(b.skip(pos)) {
        let (m, rest) = choose|m: LogMessageBufView, rest: Seq<u8>|
            b.skip(pos) == spec_encode_log_msg(m) + rest;
        lemma_log_msg_assoc(m, rest);
        lemma_auto_spec_u64_to_from_le_bytes();
        let t9 = rest;
        let t8 = spec_encode_opt_u32(m.line) + t9;
        let t7 = spec_encode_opt_str(m.file) + t8;
        let t6 = spec_encode_opt_str(m.module) + t7;
        let t5 = spec_encode_i64(m.local_time) + t6;
        let t4 = spec_encode_str(m.message) + t5;
        let t3 = spec_encode_level(m.level) + t4;
        let t2 = spec_encode_opt_str(m.thread_id) + t3;
        let t1 = spec_encode_opt_str(m.thread_name) + t2;
        assert(b.skip(pos) == t1);
        assert(b.skip(pos) =~= b.subrange(pos, p1) + b.skip(p1));
        lemma_opt_str_prefix_unique(g1, b.skip(p1), m.thread_name, t2);
        assert(b.skip(p1) =~= b.subrange(p1, p2) + b.skip(p2));
        lemma_opt_str_prefix_unique(g2, b.skip(p2), m.thread_id, t3);
        assert(b.skip(p2) =~= b.subrange(p2, p3) + b.skip(p3));
        lemma_level_prefix_unique(g3, b.skip(p3), m.level, t4);
        assert(b.skip(p3) =~= b.subrange(p3, p4) + b.skip(p4));
        lemma_str_prefix_unique(g4, b.skip(p4), m.message, t5);
        assert(b.skip(p4) =~= b.subrange(p4, p5) + b.skip(p5));
        lemma_i64_prefix_unique(g5, b.skip(p5), m.local_time, t6);
        assert(starts_with_opt_str(b.skip(p5)));
        assert(false);
    }
}

proof fn lemma_log_msg_refute7(
    b: Seq<u8>,
    pos: int,
    p1: int,
    g1: Option<Seq<char>>,
    p2: int,
    g2: Option<Seq<char>>,
    p3: int,
    g3: Level,
    p4: int,
    g4: Seq<char>,
    p5: int,
    g5: i64,
    p6: int,
    g6: Option<Seq<char>>,
)
    requires
        b.len() <= u64::MAX,
        0 <= pos <= p1 <= p2 <= p3 <= p4 <= p5 <= p6 <= b.len(),
        b.subrange(pos, p1) == spec_encode_opt_str(g1),
        b.subrange(p1, p2) == spec_encode_opt_str(g2),
        b.subrange(p2, p3) == spec_encode_level(g3),
        b.subrange(p3, p4) == spec_encode_str(g4),
        b.subrange(p4, p5) == spec_encode_i64(g5),
        b.subrange(p5, p6) == spec_encode_opt_str(g6),
        !starts_with_opt_str(b.skip(p6)),
    ensures
        !starts_with_log_msg(b.skip(pos)),
{
    if starts_with_log_msg(b.skip(pos)) {
        let (m, rest) = choose|m: LogMessageBufView, rest: Seq<u8>|
            b.skip(pos) == spec_encode_log_msg(m) + rest;
        lemma_log_msg_assoc(m, rest);
        lemma_auto_spec_u64_to_from_le_bytes();
        let t9 = rest;
        let t8 = spec_encode_opt_u32(m.line) + t9;
        let t7 = spec_encode_opt_str(m.file) + t8;
        let t6 = spec_encode_opt_str(m.module) + t7;
        let t5 = spec_encode_i64(m.local_time) + t6;
        let t4 = spec_encode_str(m.message) + t5;
        let t3 = spec_encode_level(m.level) + t4;
        let t2 = spec_encode_opt_str(m.thread_id) + t3;
        let t1 = spec_encode_opt_str(m.thread_name) + t2;
        assert(b.skip(pos) == t1);
        assert(b.skip(pos) =~= b.subrange(pos, p1) + b.skip(p1));
        lemma_opt_str_prefix_unique(g1, b.skip(p1), m.thread_name, t2);
        assert(b.skip(p1) =~= b.subrange(p1, p2) + b.skip(p2));
        lemma_opt_str_prefix_unique(g2, b.skip(p2), m.thread_id, t3);
        assert(b.skip(p2) =~= b.subrange(p2, p3) + b.skip(p3));
        lemma_level_prefix_unique(g3, b.skip(p3), m.level, t4);
        assert(b.skip(p3) =~= b.subrange(p3, p4) + b.skip(p4));
        lemma_str_prefix_unique(g4, b.skip(p4), m.message, t5);
        assert(b.skip(p4) =~= b.subrange(p4, p5) + b.skip(p5));
        lemma_i64_prefix_unique(g5, b.skip(p5), m.local_time, t6);
        assert(b.skip(p5) =~= b.subrange(p5, p6) + b.skip(p6));
        lemma_opt_str_prefix_unique(g6, b.skip(p6), m.module, t7);
        assert(starts_with_opt_str(b.skip(p6)));
        assert(false);
    }
}

proof fn lemma_log_msg_refute8(
    b: Seq<u8>,
    pos: int,
    p1: int,
    g1: Option<Seq<char>>,
    p2: int,
    g2: Option<Seq<char>>,
    p3: int,
    g3: Level,
    p4: int,
    g4: Seq<char>,
    p5: int,
    g5: i64,
    p6: int,
    g6: Option<Seq<char>>,
    p7: int,
    g7: Option<Seq<char>>,
)
    requires
        b.len() <= u64::MAX,
        0 <= pos <= p1 <= p2 <= p3 <= p4 <= p5 <= p6 <= p7 <= b.len(),
        b.subrange(pos, p1) == spec_encode_opt_str(g1),
        b.subrange(p1, p2) == spec_encode_opt_str(g2),
        b.subrange(p2, p3) == spec_encode_level(g3),
        b.subrange(p3, p4) == spec_encode_str(g4),
        b.subrange(p4, p5) == spec_encode_i64(g5),
        b.subrange(p5, p6) == spec_encode_opt_str(g6),
        b.subrange(p6, p7) == spec_encode_opt_str(g7),
        !starts_with_opt_u32(b.skip(p7)),
    ensures
        !starts_with_log_msg(b.skip(pos)),
{
    if starts_with_log_msg(b.skip(pos)) {
        let (m, rest) = choose|m: LogMessageBufView, rest: Seq<u8>|
            b.skip(pos) == spec_encode_log_msg(m) + rest;
        lemma_log_msg_assoc(m, rest);
        lemma_auto_spec_u64_to_from_le_bytes();
        let t9 = rest;
        let t8 = spec_encode_opt_u32(m.line) + t9;
        let t7 = spec_encode_opt_str(m.file) + t8;
        let t6 = spec_encode_opt_str(m.module) + t7;
        let t5 = spec_encode_i64(m.local_time) + t6;
        let t4 = spec_encode_str(m.message) + t5;
        let t3 = spec_encode_level(m.level) + t4;
        let t2 = spec_encode_opt_str(m.thread_id) + t3;
        let t1 = spec_encode_opt_str(m.thread_name) + t2;
        assert(b.skip(pos) == t1);
        assert(b.skip(pos) =~= b.subrange(pos, p1) + b.skip(p1));
        lemma_opt_str_prefix_unique(g1, b.skip(p1), m.thread_name, t2);
        assert(b.skip(p1) =~= b.subrange(p1, p2) + b.skip(p2));
        lemma_opt_str_prefix_unique(g2, b.skip(p2), m.thread_id, t3);
        assert(b.skip(p2) =~= b.subrange(p2, p3) + b.skip(p3));
        lemma_level_prefix_unique(g3, b.skip(p3), m.level, t4);
        assert(b.skip(p3) =~= b.subrange(p3, p4) + b.skip(p4));
        lemma_str_prefix_unique(g4, b.skip(p4), m.message, t5);
        assert(b.skip(p4) =~= b.subrange(p4, p5) + b.skip(p5));
        lemma_i64_prefix_unique(g5, b.skip(p5), m.local_time, t6);
        assert(b.skip(p5) =~= b.subrange(p5, p6) + b.skip(p6));
        lemma_opt_str_prefix_unique(g6, b.skip(p6), m.module, t7);
        assert(b.skip(p6) =~= b.subrange(p6, p7) + b.skip(p7));
        lemma_opt_str_prefix_unique(g7, b.skip(p7), m.file, t8);
        assert(starts_with_opt_u32(b.skip(p7)));
        assert(false);
    }
}

/// Parse one log record at `pos`.
fn parse_log_msg(b: &[u8], pos: usize) -> (r: Result<(LogMessageBuf, usize), ()>)
    requires
        pos <= b@.len(),
    ensures
        match r {
            Ok((m, end)) => {
                &&& pos < end <= b@.len()
                &&& b@.subrange(pos as int, end as int) == spec_encode_log_msg(m@)
            },
            Err(_) => !starts_with_log_msg(b@.skip(pos as int)),
        },
{
    let n: usize = b.len();
    proof {
        assert(usize::MAX <= u64::MAX) by (nonlinear_arith);
        assert(b@.len() == n);
    }
    // A failed field refutes every candidate record: the fields already
    // parsed pin the candidate's leading fields, so its next field would
    // have to start exactly where parsing just failed.
    let (thread_name, p1) = match parse_opt_str(b, pos) {
        Ok(v) => v,
        Err(_) => {
            proof {
                lemma_log_msg_refute1(b@, pos as int);
            }
            return Err(());
        },
    };
    let ghost g1 = crate::command::view_of_opt_string(thread_name);
    let (thread_id, p2) = match parse_opt_str(b, p1) {
        Ok(v) => v,
        Err(_) => {
            proof {
                lemma_log_msg_refute2(b@, pos as int, p1 as int, g1);
            }
            return Err(());
        },
    };
    let ghost g2 = crate::command::view_of_opt_string(thread_id);
    let (level, p3) = match parse_level(b, p2) {
        Ok(v) => v,
        Err(_) => {
            proof {
                lemma_log_msg_refute3(b@, pos as int, p1 as int, g1, p2 as int, g2);
            }
            return Err(());
        },
    };
    let (message, p4) = match parse_str(b, p3) {
        Ok(v) => v,
        Err(_) => {
            proof {
                lemma_log_msg_refute4(b@, pos as int, p1 as int, g1, p2 as int, g2,
                    p3 as int, level);
            }
            return Err(());
        },
    };
    let (local_time, p5) = match parse_i64(b, p4) {
        Ok(v) => v,
        Err(_) => {
            proof {
                lemma_log_msg_refute5(b@, pos as int, p1 as int, g1, p2 as int, g2,
                    p3 as int, level, p4 as int, message@);
            }
            return Err(());
        },
    };
    let (module, p6) = match parse_opt_str(b, p5) {
        Ok(v) => v,
        Err(_) => {
            proof {
                lemma_log_msg_refute6(b@, pos as int, p1 as int, g1, p2 as int, g2,
                    p3 as int, level, p4 as int, message@, p5 as int, local_time);
            }
            return Err(());
        },
    };
    let ghost g6 = crate::command::view_of_opt_string(module);
    let (file, p7) = match parse_opt_str(b, p6) {
        Ok(v) => v,
        Err(_) => {
            proof {
                lemma_log_msg_refute7(b@, pos as int, p1 as int, g1, p2 as int, g2,
                    p3 as int, level, p4 as int, message@, p5 as int, local_time,
                    p6 as int, g6);
            }
            return Err(());
        },
    };
    let ghost g7 = crate::command::view_of_opt_string(file);
    let (line, p8) = match parse_opt_u32(b, p7) {
        Ok(v) => v,
        Err(_) => {
            proof {
                lemma_log_msg_refute8(b@, pos as int, p1 as int, g1, p2 as int, g2,
                    p3 as int, level, p4 as int, message@, p5 as int, local_time,
                    p6 as int, g6, p7 as int, g7);
            }
            return Err(());
        },
    };
    let m = LogMessageBuf {
        thread_name,
        thread_id,
        level,
        message,
        local_time,
        module,
        file,
        line,
    };
    proof {
        assert(b@.subrange(pos as int, p2 as int) =~= b@.subrange(pos as int, p1 as int)
            + b@.subrange(p1 as int, p2 as int));
        assert(b@.subrange(pos as int, p3 as int) =~= b@.subrange(pos as int, p2 as int)
            + b@.subrange(p2 as int, p3 as int));
        assert(b@.subrange(pos as int, p4 as int) =~= b@.subrange(pos as int, p3 as int)
            + b@.subrange(p3 as int, p4 as int));
        assert(b@.subrange(pos as int, p5 as int) =~= b@.subrange(pos as int, p4 as int)
            + b@.subrange(p4 as int, p5 as int));
        assert(b@.subrange(pos as int, p6 as int) =~= b@.subrange(pos as int, p5 as int)
            + b@.subrange(p5 as int, p6 as int));
        assert(b@.subrange(pos as int, p7 as int) =~= b@.subrange(pos as int, p6 as int)
            + b@.subrange(p6 as int, p7 as int));
        assert(b@.subrange(pos as int, p8 as int) =~= b@.subrange(pos as int, p7 as int)
            + b@.subrange(p7 as int, p8 as int));
        assert(b@.subrange(pos as int, p8 as int) == spec_encode_log_msg(m@));
    }
    Ok((m, p8))
}

/// Append the wire form of one log record.
fn emit_log_msg(dst: &mut Vec<u8>, m: &LogMessageBuf)
    ensures
        final(dst)@ == old(dst)@ + spec_encode_log_msg(m@),
{
    emit_opt_str(dst, &m.thread_name);
    emit_opt_str(dst, &m.thread_id);
    emit_level(dst, m.level);
    emit_str(dst, m.message.as_str());
    emit_i64(dst, m.local_time);
    emit_opt_str(dst, &m.module);
    emit_opt_str(dst, &m.file);
    emit_opt_u32(dst, &m.line);
    proof {
        let e1 = spec_encode_opt_str(m@.thread_name);
        let e2 = spec_encode_opt_str(m@.thread_id);
        let e3 = spec_encode_level(m@.level);
        let e4 = spec_encode_str(m@.message);
        let e5 = spec_encode_i64(m@.local_time);
        let e6 = spec_encode_opt_str(m@.module);
        let e7 = spec_encode_opt_str(m@.file);
        let e8 = spec_encode_opt_u32(m@.line);
        let base = old(dst)@;
        lemma_add_assoc(base, e1, e2);
        lemma_add_assoc(base, e1 + e2, e3);
        lemma_add_assoc(base, e1 + e2 + e3, e4);
        lemma_add_assoc(base, e1 + e2 + e3 + e4, e5);
        lemma_add_assoc(base, e1 + e2 + e3 + e4 + e5, e6);
        lemma_add_assoc(base, e1 + e2 + e3 + e4 + e5 + e6, e7);
        lemma_add_assoc(base, e1 + e2 + e3 + e4 + e5 + e6 + e7, e8);
        assert(dst@ == old(dst)@ + spec_encode_log_msg(m@));
    }
}

// ---------------------------------------------------------------------------
// Emitters
// ---------------------------------------------------------------------------

fn emit_slice(dst: &mut Vec<u8>, src: &[u8])
    ensures
        final(dst)@ == old(dst)@ + src@,
{
    dst.extend_from_slice(src);
    proof {
        assert(dst@ =~= old(dst)@ + src@);
    }
}

/// Append the wire form of one text field.
fn emit_str(dst: &mut Vec<u8>, s: &str)
    ensures
        final(dst)@ == old(dst)@ + spec_encode_str(s@),
{
    let bytes: Vec<u8> = s.as_bytes_vec();
    let lenb: Vec<u8> = u64_to_le_bytes(bytes.len() as u64);
    emit_slice(dst, lenb.as_slice());
    emit_slice(dst, bytes.as_slice());
    proof {
        assert(dst@ =~= old(dst)@ + spec_encode_str(s@));
    }
}

/// Append the wire form of one optional text field.
fn emit_opt_str(dst: &mut Vec<u8>, o: &Option<String>)
    ensures
        final(dst)@ == old(dst)@ + spec_encode_opt_str(crate::command::view_of_opt_string(*o)),
{
    match o {
        None => {
            dst.push(0u8);
            proof {
                assert(dst@ =~= old(dst)@ + spec_encode_opt_str(
                    crate::command::view_of_opt_string(*o)));
            }
        },
        Some(s) => {
            dst.push(1u8);
            emit_str(dst, s.as_str());
            proof {
                assert(dst@ =~= old(dst)@ + spec_encode_opt_str(
                    crate::command::view_of_opt_string(*o)));
            }
        },
    }
}

/// Append the wire form of one signed 64-bit field.
fn emit_i64(dst: &mut Vec<u8>, x: i64)
    ensures
        final(dst)@ == old(dst)@ + spec_encode_i64(x),
{
    let lenb: Vec<u8> = u64_to_le_bytes(x as u64);
    emit_slice(dst, lenb.as_slice());
}

/// Append the wire form of one optional 32-bit field.
fn emit_opt_u32(dst: &mut Vec<u8>, o: &Option<u32>)
    ensures
        final(dst)@ == old(dst)@ + spec_encode_opt_u32(*o),
{
    match o {
        None => {
            dst.push(0u8);
            proof {
                assert(dst@ =~= old(dst)@ + spec_encode_opt_u32(*o));
            }
        },
        Some(x) => {
            dst.push(1u8);
            let xb: Vec<u8> = u32_to_le_bytes(*x);
            emit_slice(dst, xb.as_slice());
            proof {
                assert(dst@ =~= old(dst)@ + spec_encode_opt_u32(*o));
            }
        },
    }
}

/// Append the tag byte of one log level.
fn emit_level(dst: &mut Vec<u8>, l: Level)
    ensures
        final(dst)@ == old(dst)@ + spec_encode_level(l),
{
    let t: u8 = match l {
        Level::Error => 0u8,
        Level::Warn => 1u8,
        Level::Info => 2u8,
        Level::Debug => 3u8,
        Level::Trace => 4u8,
    };
    dst.push(t);
    proof {
        assert(dst@ =~= old(dst)@ + spec_encode_level(l));
    }
}

// ---------------------------------------------------------------------------
// Whole messages
// ---------------------------------------------------------------------------

/// An argument list encoding determines the list and everything after it.
proof fn lemma_args_prefix_unique(v1: Seq<Seq<char>>, r1: Seq<u8>, v2: Seq<Seq<char>>, r2: Seq<u8>)
    requires
        spec_encode_args(v1) + r1 == spec_encode_args(v2) + r2,
        (spec_encode_args(v1) + r1).len() <= u64::MAX,
    ensures
        v1 == v2,
        r1 == r2,
{
    lemma_auto_spec_u64_to_from_le_bytes();
    let whole = spec_encode_args(v1) + r1;
    lemma_str_list_min_len(v1);
    lemma_str_list_min_len(v2);
    assert(whole.take(8) =~= spec_u64_to_le_bytes(v1.len() as u64));
    assert(whole.take(8) =~= spec_u64_to_le_bytes(v2.len() as u64));
    assert(v1.len() as u64 == v2.len() as u64);
    assert(v1.len() <= u64::MAX);
    assert(v2.len() <= u64::MAX);
    assert(v1.len() == v2.len());
    assert(whole.skip(8) =~= spec_encode_str_list(v1) + r1);
    assert(whole.skip(8) =~= spec_encode_str_list(v2) + r2);
    lemma_str_list_prefix_unique(v1, r1, v2, r2);
}

/// A log record encoding determines the record and everything after it.
proof fn lemma_log_msg_prefix_unique(
    m1: LogMessageBufView,
    r1: Seq<u8>,
    m2: LogMessageBufView,
    r2: Seq<u8>,
)
    requires
        spec_encode_log_msg(m1) + r1 == spec_encode_log_msg(m2) + r2,
        (spec_encode_log_msg(m1) + r1).len() <= u64::MAX,
    ensures
        m1 == m2,
        r1 == r2,
{
    lemma_auto_spec_u64_to_from_le_bytes();
    lemma_log_msg_assoc(m1, r1);
    lemma_log_msg_assoc(m2, r2);
    let whole = spec_encode_log_msg(m1) + r1;
    let a9 = r1;
    let a8 = spec_encode_opt_u32(m1.line) + a9;
    let a7 = spec_encode_opt_str(m1.file) + a8;
    let a6 = spec_encode_opt_str(m1.module) + a7;
    let a5 = spec_encode_i64(m1.local_time) + a6;
    let a4 = spec_encode_str(m1.message) + a5;
    let a3 = spec_encode_level(m1.level) + a4;
    let a2 = spec_encode_opt_str(m1.thread_id) + a3;
    let b9 = r2;
    let b8 = spec_encode_opt_u32(m2.line) + b9;
    let b7 = spec_encode_opt_str(m2.file) + b8;
    let b6 = spec_encode_opt_str(m2.module) + b7;
    let b5 = spec_encode_i64(m2.local_time) + b6;
    let b4 = spec_encode_str(m2.message) + b5;
    let b3 = spec_encode_level(m2.level) + b4;
    let b2 = spec_encode_opt_str(m2.thread_id) + b3;
    lemma_opt_str_prefix_unique(m1.thread_name, a2, m2.thread_name, b2);
    lemma_opt_str_prefix_unique(m1.thread_id, a3, m2.thread_id, b3);
    lemma_level_prefix_unique(m1.level, a4, m2.level, b4);
    lemma_str_prefix_unique(m1.message, a5, m2.message, b5);
    lemma_i64_prefix_unique(m1.local_time, a6, m2.local_time, b6);
    lemma_opt_str_prefix_unique(m1.module, a7, m2.module, b7);
    lemma_opt_str_prefix_unique(m1.file, a8, m2.file, b8);
    lemma_opt_u32_prefix_unique(m1.line, a9, m2.line, b9);
    assert(m1 =~= m2);
}

/// Request command encodings are injective: equal bytes mean equal
/// commands.
pub proof fn lemma_encode_command_injective(c1: CommandView, c2: CommandView)
    requires
        spec_encode_command(c1) == spec_encode_command(c2),
        spec_encode_command(c1).len() <= u64::MAX,
    ensures
        c1 == c2,
{
    lemma_auto_spec_u64_to_from_le_bytes();
    let whole = spec_encode_command(c1);
    match (c1, c2) {
        (CommandView::Exec { app_id: a1, script: s1 }, CommandView::Exec {
            app_id: a2,
            script: s2,
        }) => {
            assert(whole.skip(1) =~= spec_encode_str(a1) + spec_encode_str(s1)) by {
                assert((seq![0u8] + spec_encode_str(a1) + spec_encode_str(s1)).skip(1)
                    =~= spec_encode_str(a1) + spec_encode_str(s1));
            }
            assert(whole.skip(1) =~= spec_encode_str(a2) + spec_encode_str(s2)) by {
                assert((seq![0u8] + spec_encode_str(a2) + spec_encode_str(s2)).skip(1)
                    =~= spec_encode_str(a2) + spec_encode_str(s2));
            }
            lemma_str_prefix_unique(a1, spec_encode_str(s1), a2, spec_encode_str(s2));
            assert(spec_encode_str(s1) + Seq::<u8>::empty() =~= spec_encode_str(s1));
            assert(spec_encode_str(s2) + Seq::<u8>::empty() =~= spec_encode_str(s2));
            lemma_str_prefix_unique(s1, Seq::<u8>::empty(), s2, Seq::<u8>::empty());
        },
        (CommandView::Args(v1), CommandView::Args(v2)) => {
            assert(whole.skip(1) =~= spec_encode_args(v1)) by {
                assert((seq![1u8] + spec_encode_args(v1)).skip(1) =~= spec_encode_args(v1));
            }
            assert(whole.skip(1) =~= spec_encode_args(v2)) by {
                assert((seq![1u8] + spec_encode_args(v2)).skip(1) =~= spec_encode_args(v2));
            }
            assert(spec_encode_args(v1) + Seq::<u8>::empty() =~= spec_encode_args(v1));
            assert(spec_encode_args(v2) + Seq::<u8>::empty() =~= spec_encode_args(v2));
            lemma_args_prefix_unique(v1, Seq::<u8>::empty(), v2, Seq::<u8>::empty());
        },
        (CommandView::Exit, CommandView::Exit) => {
        },
        _ => {
            assert(whole[0] == spec_encode_command(c1)[0]);
            assert(spec_encode_command(c2)[0] == whole[0]);
            assert(false);
        },
    }
}

/// Reply command encodings are injective: equal bytes mean equal commands.
pub proof fn lemma_encode_reciver_injective(c1: ReciverCommandView, c2: ReciverCommandView)
    requires
        spec_encode_reciver_command(c1) == spec_encode_reciver_command(c2),
        spec_encode_reciver_command(c1).len() <= u64::MAX,
    ensures
        c1 == c2,
{
    lemma_auto_spec_u64_to_from_le_bytes();
    let whole = spec_encode_reciver_command(c1);
    match (c1, c2) {
        (ReciverCommandView::Log { app_id: a1, message: m1 }, ReciverCommandView::Log {
            app_id: a2,
            message: m2,
        }) => {
            assert(whole.skip(1) =~= spec_encode_str(a1) + spec_encode_log_msg(m1)) by {
                assert((seq![0u8] + spec_encode_str(a1) + spec_encode_log_msg(m1)).skip(1)
                    =~= spec_encode_str(a1) + spec_encode_log_msg(m1));
            }
            assert(whole.skip(1) =~= spec_encode_str(a2) + spec_encode_log_msg(m2)) by {
                assert((seq![0u8] + spec_encode_str(a2) + spec_encode_log_msg(m2)).skip(1)
                    =~= spec_encode_str(a2) + spec_encode_log_msg(m2));
            }
            lemma_str_prefix_unique(a1, spec_encode_log_msg(m1), a2, spec_encode_log_msg(m2));
            assert(spec_encode_log_msg(m1) + Seq::<u8>::empty() =~= spec_encode_log_msg(m1));
            assert(spec_encode_log_msg(m2) + Seq::<u8>::empty() =~= spec_encode_log_msg(m2));
            lemma_log_msg_prefix_unique(m1, Seq::<u8>::empty(), m2, Seq::<u8>::empty());
        },
        (ReciverCommandView::ExecResult { result: s1 }, ReciverCommandView::ExecResult {
            result: s2,
        }) => {
            assert(whole.skip(1) =~= spec_encode_str(s1)) by {
                assert((seq![1u8] + spec_encode_str(s1)).skip(1) =~= spec_encode_str(s1));
            }
            assert(whole.skip(1) =~= spec_encode_str(s2)) by {
                assert((seq![1u8] + spec_encode_str(s2)).skip(1) =~= spec_encode_str(s2));
            }
            assert(spec_encode_str(s1) + Seq::<u8>::empty() =~= spec_encode_str(s1));
            assert(spec_encode_str(s2) + Seq::<u8>::empty() =~= spec_encode_str(s2));
            lemma_str_prefix_unique(s1, Seq::<u8>::empty(), s2, Seq::<u8>::empty());
        },
        (ReciverCommandView::Args(v1), ReciverCommandView::Args(v2)) => {
            assert(whole.skip(1) =~= spec_encode_args(v1)) by {
                assert((seq![2u8] + spec_encode_args(v1)).skip(1) =~= spec_encode_args(v1));
            }
            assert(whole.skip(1) =~= spec_encode_args(v2)) by {
                assert((seq![2u8] + spec_encode_args(v2)).skip(1) =~= spec_encode_args(v2));
            }
            assert(spec_encode_args(v1) + Seq::<u8>::empty() =~= spec_encode_args(v1));
            assert(spec_encode_args(v2) + Seq::<u8>::empty() =~= spec_encode_args(v2));
            lemma_args_prefix_unique(v1, Seq::<u8>::empty(), v2, Seq::<u8>::empty());
        },
        (ReciverCommandView::Exit, ReciverCommandView::Exit) => {
        },
        _ => {
            assert(whole[0] == spec_encode_reciver_command(c1)[0]);
            assert(spec_encode_reciver_command(c2)[0] == whole[0]);
            assert(false);
        },
    }
}

/// Encode one request command to its wire form.
pub fn encode_command(c: &Command) -> (r: Vec<u8>)
    ensures
        r@ == spec_encode_command(c@),
{
    let mut out: Vec<u8> = Vec::new();
    match c {
        Command::Exec { app_id, script } => {
            out.push(0u8);
            emit_str(&mut out, app_id.as_str());
            emit_str(&mut out, script.as_str());
            proof {
                lemma_add_assoc(seq![0u8], spec_encode_str(app_id@), spec_encode_str(script@));
                assert(Seq::<u8>::empty() + seq![0u8] =~= seq![0u8]);
            }
        },
        Command::Args(args) => {
            out.push(1u8);
            emit_args(&mut out, args);
            proof {
                assert(Seq::<u8>::empty() + seq![1u8] =~= seq![1u8]);
            }
        },
        Command::Exit => {
            out.push(2u8);
            proof {
                assert(Seq::<u8>::empty().push(2u8) =~= seq![2u8]);
            }
        },
    }
    out
}

/// Encode one reply command to its wire form.
pub fn encode_reciver_command(c: &ReciverCommand) -> (r: Vec<u8>)
    ensures
        r@ == spec_encode_reciver_command(c@),
{
    let mut out: Vec<u8> = Vec::new();
    match c {
        ReciverCommand::Log { app_id, message } => {
            out.push(0u8);
            emit_str(&mut out, app_id.as_str());
            emit_log_msg(&mut out, message);
            proof {
                lemma_add_assoc(
                    seq![0u8],
                    spec_encode_str(app_id@),
                    spec_encode_log_msg(message@),
                );
                assert(Seq::<u8>::empty() + seq![0u8] =~= seq![0u8]);
            }
        },
        ReciverCommand::ExecResult { result } => {
            out.push(1u8);
            emit_str(&mut out, result.as_str());
            proof {
                assert(Seq::<u8>::empty() + seq![1u8] =~= seq![1u8]);
            }
        },
        ReciverCommand::Args(args) => {
            out.push(2u8);
            emit_args(&mut out, args);
            proof {
                assert(Seq::<u8>::empty() + seq![2u8] =~= seq![2u8]);
            }
        },
        ReciverCommand::Exit => {
            out.push(3u8);
            proof {
                assert(Seq::<u8>::empty().push(3u8) =~= seq![3u8]);
            }
        },
    }
    out
}

fn decode_failure() -> (r: crate::ipc::Error)
    ensures
        r is DecodeError,
{
    crate::ipc::Error::DecodeError(String::from_str("not one well-formed message"))
}

/// Decode one request command from exactly one wire message. Succeeds if
/// and only if the bytes are the encoding of some command, and then returns
/// that command; anything else — truncated, garbled, or trailing bytes —
/// is a `DecodeError`, never a panic.
pub fn decode_command(b: &[u8]) -> (r: Result<Command, crate::ipc::Error>)
    ensures
        match r {
            Ok(c) => spec_encode_command(c@) == b@,
            Err(e) => !is_command_encoding(b@) && e is DecodeError,
        },
{
    let n: usize = b.len();
    proof {
        assert(usize::MAX <= u64::MAX) by (nonlinear_arith);
    }
    if n < 1 {
        proof {
            assert forall|c: CommandView| spec_encode_command(c) != b@ by {
                match c {
                    CommandView::Exec { app_id, script } => {},
                    CommandView::Args(args) => {},
                    CommandView::Exit => {},
                }
            }
        }
        return Err(decode_failure());
    }
    let tag: u8 = *slice_index_get(b, 0);
    if tag == 0 {
        let (app_id, e1) = match parse_str(b, 1) {
            Ok(v) => v,
            Err(_) => {
                proof {
                    assert forall|c: CommandView| spec_encode_command(c) != b@ by {
                        if b@ == spec_encode_command(c) {
                            match c {
                                CommandView::Exec { app_id, script } => {
                                    assert(b@.skip(1) =~= spec_encode_str(app_id)
                                        + spec_encode_str(script));
                                    assert(starts_with_str(b@.skip(1)));
                                },
                                CommandView::Args(args) => {
                                    assert(b@[0] == 1u8);
                                },
                                CommandView::Exit => {
                                    assert(b@[0] == 2u8);
                                },
                            }
                        }
                    }
                }
                return Err(decode_failure());
            },
        };
        let (script, e2) = match parse_str(b, e1) {
            Ok(v) => v,
            Err(_) => {
                proof {
                    assert forall|c: CommandView| spec_encode_command(c) != b@ by {
                        if b@ == spec_encode_command(c) {
                            match c {
                                CommandView::Exec { app_id: a2, script: s2 } => {
                                    assert(b@.skip(1) =~= spec_encode_str(a2)
                                        + spec_encode_str(s2));
                                    assert(b@.skip(1) =~= b@.subrange(1, e1 as int) + b@.skip(
                                        e1 as int));
                                    lemma_str_prefix_unique(
                                        app_id@,
                                        b@.skip(e1 as int),
                                        a2,
                                        spec_encode_str(s2),
                                    );
                                    assert(b@.skip(e1 as int) =~= spec_encode_str(s2)
                                        + Seq::<u8>::empty());
                                    assert(starts_with_str(b@.skip(e1 as int)));
                                },
                                CommandView::Args(args) => {
                                    assert(b@[0] == 1u8);
                                },
                                CommandView::Exit => {
                                    assert(b@[0] == 2u8);
                                },
                            }
                        }
                    }
                }
                return Err(decode_failure());
            },
        };
        if e2 != n {
            proof {
                assert forall|c: CommandView| spec_encode_command(c) != b@ by {
                    if b@ == spec_encode_command(c) {
                        match c {
                            CommandView::Exec { app_id: a2, script: s2 } => {
                                assert(b@.skip(1) =~= spec_encode_str(a2)
                                    + spec_encode_str(s2));
                                assert(b@.skip(1) =~= b@.subrange(1, e1 as int) + b@.skip(
                                    e1 as int));
                                lemma_str_prefix_unique(
                                    app_id@,
                                    b@.skip(e1 as int),
                                    a2,
                                    spec_encode_str(s2),
                                );
                                assert(b@.skip(e1 as int) =~= b@.subrange(e1 as int, e2 as int)
                                    + b@.skip(e2 as int));
                                assert(spec_encode_str(s2) + Seq::<u8>::empty()
                                    =~= spec_encode_str(s2));
                                lemma_str_prefix_unique(
                                    script@,
                                    b@.skip(e2 as int),
                                    s2,
                                    Seq::<u8>::empty(),
                                );
                                assert(b@.skip(e2 as int).len() == 0);
                            },
                            CommandView::Args(args) => {
                                assert(b@[0] == 1u8);
                            },
                            CommandView::Exit => {
                                assert(b@[0] == 2u8);
                            },
                        }
                    }
                }
            }
            return Err(decode_failure());
        }
        let c = Command::Exec { app_id, script };
        proof {
            assert(b@ =~= seq![0u8] + b@.subrange(1, e1 as int) + b@.subrange(
                e1 as int, e2 as int));
        }
        Ok(c)
    } else if tag == 1 {
        let (args, e1) = match parse_args(b, 1) {
            Ok(v) => v,
            Err(_) => {
                proof {
                    assert forall|c: CommandView| spec_encode_command(c) != b@ by {
                        if b@ == spec_encode_command(c) {
                            match c {
                                CommandView::Exec { app_id, script } => {
                                    assert(b@[0] == 0u8);
                                },
                                CommandView::Args(v2) => {
                                    assert(b@.skip(1) =~= spec_encode_args(v2)
                                        + Seq::<u8>::empty());
                                    assert(starts_with_args(b@.skip(1)));
                                },
                                CommandView::Exit => {
                                    assert(b@[0] == 2u8);
                                },
                            }
                        }
                    }
                }
                return Err(decode_failure());
            },
        };
        if e1 != n {
            proof {
                assert forall|c: CommandView| spec_encode_command(c) != b@ by {
                    if b@ == spec_encode_command(c) {
                        match c {
                            CommandView::Exec { app_id, script } => {
                                assert(b@[0] == 0u8);
                            },
                            CommandView::Args(v2) => {
                                assert(b@.skip(1) =~= spec_encode_args(v2)
                                    + Seq::<u8>::empty());
                                assert(b@.skip(1) =~= b@.subrange(1, e1 as int) + b@.skip(
                                    e1 as int));
                                lemma_args_prefix_unique(
                                    args.deep_view(),
                                    b@.skip(e1 as int),
                                    v2,
                                    Seq::<u8>::empty(),
                                );
                                assert(b@.skip(e1 as int).len() == 0);
                            },
                            CommandView::Exit => {
                                assert(b@[0] == 2u8);
                            },
                        }
                    }
                }
            }
            return Err(decode_failure());
        }
        proof {
            assert(b@ =~= seq![1u8] + b@.subrange(1, e1 as int));
        }
        Ok(Command::Args(args))
    } else if tag == 2 {
        if n != 1 {
            proof {
                assert forall|c: CommandView| spec_encode_command(c) != b@ by {
                    if b@ == spec_encode_command(c) {
                        match c {
                            CommandView::Exec { app_id, script } => {
                                assert(b@[0] == 0u8);
                            },
                            CommandView::Args(args) => {
                                assert(b@[0] == 1u8);
                            },
                            CommandView::Exit => {
                                assert(b@.len() == 1);
                            },
                        }
                    }
                }
            }
            return Err(decode_failure());
        }
        proof {
            assert(b@ =~= seq![2u8]);
        }
        Ok(Command::Exit)
    } else {
        proof {
            assert forall|c: CommandView| spec_encode_command(c) != b@ by {
                if b@ == spec_encode_command(c) {
                    match c {
                        CommandView::Exec { app_id, script } => {
                            assert(b@[0] == 0u8);
                        },
                        CommandView::Args(args) => {
                            assert(b@[0] == 1u8);
                        },
                        CommandView::Exit => {
                            assert(b@[0] == 2u8);
                        },
                    }
                }
            }
        }
        Err(decode_failure())
    }
}

/// Decode one reply command from exactly one wire message, under the same
/// contract as `decode_command`.
#[verifier::rlimit(100)]
#[verifier::spinoff_prover]
pub fn decode_reciver_command(b: &[u8]) -> (r: Result<ReciverCommand, crate::ipc::Error>)
    ensures
        match r {
            Ok(c) => spec_encode_reciver_command(c@) == b@,
            Err(e) => !is_reciver_encoding(b@) && e is DecodeError,
        },
{
    let n: usize = b.len();
    proof {
        assert(usize::MAX <= u64::MAX) by (nonlinear_arith);
    }
    if n < 1 {
        proof {
            assert forall|c: ReciverCommandView| spec_encode_reciver_command(c) != b@ by {
                match c {
                    ReciverCommandView::Log { app_id, message } => {},
                    ReciverCommandView::ExecResult { result } => {},
                    ReciverCommandView::Args(args) => {},
                    ReciverCommandView::Exit => {},
                }
            }
        }
        return Err(decode_failure());
    }
    let tag: u8 = *slice_index_get(b, 0);
    if tag == 0 {
        let (app_id, e1) = match parse_str(b, 1) {
            Ok(v) => v,
            Err(_) => {
                proof {
                    assert forall|c: ReciverCommandView| spec_encode_reciver_command(c) != b@
                        by {
                        if b@ == spec_encode_reciver_command(c) {
                            match c {
                                ReciverCommandView::Log { app_id, message } => {
                                    assert(b@.skip(1) =~= spec_encode_str(app_id)
                                        + spec_encode_log_msg(message));
                                    assert(starts_with_str(b@.skip(1)));
                                },
                                ReciverCommandView::ExecResult { result } => {
                                    assert(b@[0] == 1u8);
                                },
                                ReciverCommandView::Args(args) => {
                                    assert(b@[0] == 2u8);
                                },
                                ReciverCommandView::Exit => {
                                    assert(b@[0] == 3u8);
                                },
                            }
                        }
                    }
                }
                return Err(decode_failure());
            },
        };
        let (message, e2) = match parse_log_msg(b, e1) {
            Ok(v) => v,
            Err(_) => {
                proof {
                    assert forall|c: ReciverCommandView| spec_encode_reciver_command(c) != b@
                        by {
                        if b@ == spec_encode_reciver_command(c) {
                            match c {
                                ReciverCommandView::Log { app_id: a2, message: m2 } => {
                                    assert(b@.skip(1) =~= spec_encode_str(a2)
                                        + spec_encode_log_msg(m2));
                                    assert(b@.skip(1) =~= b@.subrange(1, e1 as int) + b@.skip(
                                        e1 as int));
                                    lemma_str_prefix_unique(
                                        app_id@,
                                        b@.skip(e1 as int),
                                        a2,
                                        spec_encode_log_msg(m2),
                                    );
                                    assert(b@.skip(e1 as int) =~= spec_encode_log_msg(m2)
                                        + Seq::<u8>::empty());
                                    assert(starts_with_log_msg(b@.skip(e1 as int)));
                                },
                                ReciverCommandView::ExecResult { result } => {
                                    assert(b@[0] == 1u8);
                                },
                                ReciverCommandView::Args(args) => {
                                    assert(b@[0] == 2u8);
                                },
                                ReciverCommandView::Exit => {
                                    assert(b@[0] == 3u8);
                                },
                            }
                        }
                    }
                }
                return Err(decode_failure());
            },
        };
        if e2 != n {
            proof {
                assert forall|c: ReciverCommandView| spec_encode_reciver_command(c) != b@ by {
                    if b@ == spec_encode_reciver_command(c) {
                        match c {
                            ReciverCommandView::Log { app_id: a2, message: m2 } => {
                                assert(b@.skip(1) =~= spec_encode_str(a2)
                                    + spec_encode_log_msg(m2));
                                assert(b@.skip(1) =~= b@.subrange(1, e1 as int) + b@.skip(
                                    e1 as int));
                                lemma_str_prefix_unique(
                                    app_id@,
                                    b@.skip(e1 as int),
                                    a2,
                                    spec_encode_log_msg(m2),
                                );
                                assert(b@.skip(e1 as int) =~= b@.subrange(e1 as int, e2 as int)
                                    + b@.skip(e2 as int));
                                assert(spec_encode_log_msg(m2) + Seq::<u8>::empty()
                                    =~= spec_encode_log_msg(m2));
                                lemma_log_msg_prefix_unique(
                                    message@,
                                    b@.skip(e2 as int),
                                    m2,
                                    Seq::<u8>::empty(),
                                );
                                assert(b@.skip(e2 as int).len() == 0);
                            },
                            ReciverCommandView::ExecResult { result } => {
                                assert(b@[0] == 1u8);
                            },
                            ReciverCommandView::Args(args) => {
                                assert(b@[0] == 2u8);
                            },
                            ReciverCommandView::Exit => {
                                assert(b@[0] == 3u8);
                            },
                        }
                    }
                }
            }
            return Err(decode_failure());
        }
        let c = ReciverCommand::Log { app_id, message };
        proof {
            assert(b@ =~= seq![0u8] + b@.subrange(1, e1 as int) + b@.subrange(
                e1 as int, e2 as int));
        }
        Ok(c)
    } else if tag == 1 {
        let (result, e1) = match parse_str(b, 1) {
            Ok(v) => v,
            Err(_) => {
                proof {
                    assert forall|c: ReciverCommandView| spec_encode_reciver_command(c) != b@
                        by {
                        if b@ == spec_encode_reciver_command(c) {
                            match c {
                                ReciverCommandView::Log { app_id, message } => {
                                    assert(b@[0] == 0u8);
                                },
                                ReciverCommandView::ExecResult { result } => {
                                    assert(b@.skip(1) =~= spec_encode_str(result)
                                        + Seq::<u8>::empty());
                                    assert(starts_with_str(b@.skip(1)));
                                },
                                ReciverCommandView::Args(args) => {
                                    assert(b@[0] == 2u8);
                                },
                                ReciverCommandView::Exit => {
                                    assert(b@[0] == 3u8);
                                },
                            }
                        }
                    }
                }
                return Err(decode_failure());
            },
        };
        if e1 != n {
            proof {
                assert forall|c: ReciverCommandView| spec_encode_reciver_command(c) != b@ by {
                    if b@ == spec_encode_reciver_command(c) {
                        match c {
                            ReciverCommandView::Log { app_id, message } => {
                                assert(b@[0] == 0u8);
                            },
                            ReciverCommandView::ExecResult { result: s2 } => {
                                assert(b@.skip(1) =~= spec_encode_str(s2)
                                    + Seq::<u8>::empty());
                                assert(b@.skip(1) =~= b@.subrange(1, e1 as int) + b@.skip(
                                    e1 as int));
                                lemma_str_prefix_unique(
                                    result@,
                                    b@.skip(e1 as int),
                                    s2,
                                    Seq::<u8>::empty(),
                                );
                                assert(b@.skip(e1 as int).len() == 0);
                            },
                            ReciverCommandView::Args(args) => {
                                assert(b@[0] == 2u8);
                            },
                            ReciverCommandView::Exit => {
                                assert(b@[0] == 3u8);
                            },
                        }
                    }
                }
            }
            return Err(decode_failure());
        }
        proof {
            assert(b@ =~= seq![1u8] + b@.subrange(1, e1 as int));
        }
        Ok(ReciverCommand::ExecResult { result })
    } else if tag == 2 {
        let (args, e1) = match parse_args(b, 1) {
            Ok(v) => v,
            Err(_) => {
                proof {
                    assert forall|c: ReciverCommandView| spec_encode_reciver_command(c) != b@
                        by {
                        if b@ == spec_encode_reciver_command(c) {
                            match c {
                                ReciverCommandView::Log { app_id, message } => {
                                    assert(b@[0] == 0u8);
                                },
                                ReciverCommandView::ExecResult { result } => {
                                    assert(b@[0] == 1u8);
                                },
                                ReciverCommandView::Args(v2) => {
                                    assert(b@.skip(1) =~= spec_encode_args(v2)
                                        + Seq::<u8>::empty());
                                    assert(starts_with_args(b@.skip(1)));
                                },
                                ReciverCommandView::Exit => {
                                    assert(b@[0] == 3u8);
                                },
                            }
                        }
                    }
                }
                return Err(decode_failure());
            },
        };
        if e1 != n {
            proof {
                assert forall|c: ReciverCommandView| spec_encode_reciver_command(c) != b@ by {
                    if b@ == spec_encode_reciver_command(c) {
                        match c {
                            ReciverCommandView::Log { app_id, message } => {
                                assert(b@[0] == 0u8);
                            },
                            ReciverCommandView::ExecResult { result } => {
                                assert(b@[0] == 1u8);
                            },
                            ReciverCommandView::Args(v2) => {
                                assert(b@.skip(1) =~= spec_encode_args(v2)
                                    + Seq::<u8>::empty());
                                assert(b@.skip(1) =~= b@.subrange(1, e1 as int) + b@.skip(
                                    e1 as int));
                                lemma_args_prefix_unique(
                                    args.deep_view(),
                                    b@.skip(e1 as int),
                                    v2,
                                    Seq::<u8>::empty(),
                                );
                                assert(b@.skip(e1 as int).len() == 0);
                            },
                            ReciverCommandView::Exit => {
                                assert(b@[0] == 3u8);
                            },
                        }
                    }
                }
            }
            return Err(decode_failure());
        }
        proof {
            assert(b@ =~= seq![2u8] + b@.subrange(1, e1 as int));
        }
        Ok(ReciverCommand::Args(args))
    } else if tag == 3 {
        if n != 1 {
            proof {
                assert forall|c: ReciverCommandView| spec_encode_reciver_command(c) != b@ by {
                    if b@ == spec_encode_reciver_command(c) {
                        match c {
                            ReciverCommandView::Log { app_id, message } => {
                                assert(b@[0] == 0u8);
                            },
                            ReciverCommandView::ExecResult { result } => {
                                assert(b@[0] == 1u8);
                            },
                            ReciverCommandView::Args(args) => {
                                assert(b@[0] == 2u8);
                            },
                            ReciverCommandView::Exit => {
                                assert(b@.len() == 1);
                            },
                        }
                    }
                }
            }
            return Err(decode_failure());
        }
        proof {
            assert(b@ =~= seq![3u8]);
        }
        Ok(ReciverCommand::Exit)
    } else {
        proof {
            assert forall|c: ReciverCommandView| spec_encode_reciver_command(c) != b@ by {
                if b@ == spec_encode_reciver_command(c) {
                    match c {
                        ReciverCommandView::Log { app_id, message } => {
                            assert(b@[0] == 0u8);
                        },
                        ReciverCommandView::ExecResult { result } => {
                            assert(b@[0] == 1u8);
                        },
                        ReciverCommandView::Args(args) => {
                            assert(b@[0] == 2u8);
                        },
                        ReciverCommandView::Exit => {
                            assert(b@[0] == 3u8);
                        },
                    }
                }
            }
        }
        Err(decode_failure())
    }
}

// ---------------------------------------------------------------------------
// The round-trip law
// ---------------------------------------------------------------------------

/// What decoding means for a byte string: the unique request command that
/// encodes to it, if one exists.
pub open spec fn spec_decode_command(b: Seq<u8>) -> Option<CommandView> {
    if is_command_encoding(b) {
        Option::Some(choose|c: CommandView| spec_encode_command(c) == b)
    } else {
        Option::None
    }
}

/// What decoding means for a byte string: the unique reply command that
/// encodes to it, if one exists.
pub open spec fn spec_decode_reciver_command(b: Seq<u8>) -> Option<ReciverCommandView> {
    if is_reciver_encoding(b) {
        Option::Some(choose|c: ReciverCommandView| spec_encode_reciver_command(c) == b)
    } else {
        Option::None
    }
}

/// Round-trip law for request commands: decoding an encoded command gives
/// back exactly that command, variant and field values included. The length
/// bound only states that the encoding fits in an 8-byte length field,
/// which holds of every value a program can build.
pub proof fn lemma_command_round_trip(c: CommandView)
    requires
        spec_encode_command(c).len() <= u64::MAX,
    ensures
        spec_decode_command(spec_encode_command(c)) == Some(c),
{
    let b = spec_encode_command(c);
    assert(is_command_encoding(b));
    let c2 = choose|c2: CommandView| spec_encode_command(c2) == b;
    lemma_encode_command_injective(c, c2);
}

/// Round-trip law for reply commands, under the same bound.
pub proof fn lemma_reciver_command_round_trip(c: ReciverCommandView)
    requires
        spec_encode_reciver_command(c).len() <= u64::MAX,
    ensures
        spec_decode_reciver_command(spec_encode_reciver_command(c)) == Some(c),
{
    let b = spec_encode_reciver_command(c);
    assert(is_reciver_encoding(b));
    let c2 = choose|c2: ReciverCommandView| spec_encode_reciver_command(c2) == b;
    lemma_encode_reciver_injective(c, c2);
}

} // verus!
