//! The persistence format: a byte-level encoding of an ordered sequence of
//! window records, and its parser. Serialization and parsing are exact
//! inverses — see `lemma_layout_round_trip` — and parsing rejects any
//! malformed or truncated input instead of producing partial state.
//!
//! Layout of the encoding: a two-byte tag and a format version, the record
//! count as a big-endian u64, then each record's fields in a fixed order.
//! Integers are big-endian; booleans are one byte, `0` or `1`; strings are
//! a u64 character count followed by each character's code point as a u32;
//! optional values are a one-byte presence tag followed by the payload.
use vstd::prelude::*;

verus! {

/// Big-endian bytes of a u64.
pub open spec fn ser_u64(v: u64) -> Seq<u8> {
    seq![
        (v >> 56) as u8,
        (v >> 48) as u8,
        (v >> 40) as u8,
        (v >> 32) as u8,
        (v >> 24) as u8,
        (v >> 16) as u8,
        (v >> 8) as u8,
        v as u8,
    ]
}

/// Big-endian bytes of a u32.
pub open spec fn ser_u32(v: u32) -> Seq<u8> {
    seq![(v >> 24) as u8, (v >> 16) as u8, (v >> 8) as u8, v as u8]
}

/// One byte for a boolean: `1` for true, `0` for false.
pub open spec fn ser_bool(v: bool) -> Seq<u8> {
    seq![
        if v {
            1u8
        } else {
            0u8
        },
    ]
}

/// An i64 travels as the bytes of its two's-complement image.
pub open spec fn ser_i64(v: i64) -> Seq<u8> {
    ser_u64(v as u64)
}

/// The u64 at `p`, big-endian, with the next position; `None` when fewer
/// than eight bytes remain.
pub open spec fn parse_u64(b: Seq<u8>, p: int) -> Option<(u64, int)> {
    if 0 <= p && p + 8 <= b.len() {
        let v = ((b[p] as u64) << 56) | ((b[p + 1] as u64) << 48) | ((b[p + 2] as u64) << 40) | ((
        b[p + 3] as u64) << 32) | ((b[p + 4] as u64) << 24) | ((b[p + 5] as u64) << 16) | ((b[p
            + 6] as u64) << 8) | (b[p + 7] as u64);
        Some((v, p + 8))
    } else {
        None
    }
}

/// The u32 at `p`, big-endian, with the next position.
pub open spec fn parse_u32(b: Seq<u8>, p: int) -> Option<(u32, int)> {
    if 0 <= p && p + 4 <= b.len() {
        let v = ((b[p] as u32) << 24) | ((b[p + 1] as u32) << 16) | ((b[p + 2] as u32) << 8) | (b[p
            + 3] as u32);
        Some((v, p + 4))
    } else {
        None
    }
}

/// The boolean at `p`: any byte other than `0` or `1` is malformed.
pub open spec fn parse_bool(b: Seq<u8>, p: int) -> Option<(bool, int)> {
    if 0 <= p && p + 1 <= b.len() {
        if b[p] == 0u8 {
            Some((false, p + 1))
        } else if b[p] == 1u8 {
            Some((true, p + 1))
        } else {
            None
        }
    } else {
        None
    }
}

/// The i64 at `p`, read back from its two's-complement image.
pub open spec fn parse_i64(b: Seq<u8>, p: int) -> Option<(i64, int)> {
    match parse_u64(b, p) {
        Some((v, q)) => Some((v as i64, q)),
        None => None,
    }
}

/// Reassembling the eight big-endian bytes of a u64 gives the u64 back.
proof fn lemma_u64_bytes(v: u64)
    ensures
        (((v >> 56) as u8 as u64) << 56) | (((v >> 48) as u8 as u64) << 48) | (((v
            >> 40) as u8 as u64) << 40) | (((v >> 32) as u8 as u64) << 32) | (((v
            >> 24) as u8 as u64) << 24) | (((v >> 16) as u8 as u64) << 16) | (((v
            >> 8) as u8 as u64) << 8) | ((v as u8) as u64) == v,
{
    assert((((v >> 56) as u8 as u64) << 56) | (((v >> 48) as u8 as u64) << 48) | (((v
        >> 40) as u8 as u64) << 40) | (((v >> 32) as u8 as u64) << 32) | (((v >> 24) as u8 as u64)
        << 24) | (((v >> 16) as u8 as u64) << 16) | (((v >> 8) as u8 as u64) << 8) | ((
    v as u8) as u64) == v) by (bit_vector);
}

/// Reassembling the four big-endian bytes of a u32 gives the u32 back.
proof fn lemma_u32_bytes(v: u32)
    ensures
        (((v >> 24) as u8 as u32) << 24) | (((v >> 16) as u8 as u32) << 16) | (((v
            >> 8) as u8 as u32) << 8) | ((v as u8) as u32) == v,
{
    assert((((v >> 24) as u8 as u32) << 24) | (((v >> 16) as u8 as u32) << 16) | (((v
        >> 8) as u8 as u32) << 8) | ((v as u8) as u32) == v) by (bit_vector);
}

/// An i64 survives the round trip through its unsigned image.
proof fn lemma_i64_cast(v: i64)
    ensures
        (v as u64) as i64 == v,
{
    assert((v as u64) as i64 == v) by (bit_vector);
}

/// Parsing a serialized u64 in place recovers it.
proof fn lemma_parse_u64_roundtrip(b: Seq<u8>, p: int, v: u64)
    requires
        0 <= p,
        p + 8 <= b.len(),
        b.subrange(p, p + 8) =~= ser_u64(v),
    ensures
        parse_u64(b, p) == Some((v, p + 8)),
{
    assert forall|k: int| 0 <= k < 8 implies b[p + k] == ser_u64(v)[k] by {
        assert(b.subrange(p, p + 8)[k] == b[p + k]);
    }
    lemma_u64_bytes(v);
}

/// Parsing a serialized u32 in place recovers it.
proof fn lemma_parse_u32_roundtrip(b: Seq<u8>, p: int, v: u32)
    requires
        0 <= p,
        p + 4 <= b.len(),
        b.subrange(p, p + 4) =~= ser_u32(v),
    ensures
        parse_u32(b, p) == Some((v, p + 4)),
{
    assert forall|k: int| 0 <= k < 4 implies b[p + k] == ser_u32(v)[k] by {
        assert(b.subrange(p, p + 4)[k] == b[p + k]);
    }
    lemma_u32_bytes(v);
}

/// Parsing a serialized boolean in place recovers it.
proof fn lemma_parse_bool_roundtrip(b: Seq<u8>, p: int, v: bool)
    requires
        0 <= p,
        p + 1 <= b.len(),
        b.subrange(p, p + 1) =~= ser_bool(v),
    ensures
        parse_bool(b, p) == Some((v, p + 1)),
{
    assert(b.subrange(p, p + 1)[0] == b[p]);
}

/// Parsing a serialized i64 in place recovers it.
proof fn lemma_parse_i64_roundtrip(b: Seq<u8>, p: int, v: i64)
    requires
        0 <= p,
        p + 8 <= b.len(),
        b.subrange(p, p + 8) =~= ser_i64(v),
    ensures
        parse_i64(b, p) == Some((v, p + 8)),
{
    lemma_parse_u64_roundtrip(b, p, v as u64);
    lemma_i64_cast(v);
}

/// The code points of a character sequence, four bytes each.
pub open spec fn ser_chars(s: Seq<char>) -> Seq<u8>
    decreases s.len(),
{
    if s.len() == 0 {
        Seq::empty()
    } else {
        ser_u32(s[0] as u32) + ser_chars(s.drop_first())
    }
}

/// A string: its character count as a u64, then the code points.
pub open spec fn ser_str(s: Seq<char>) -> Seq<u8> {
    ser_u64(s.len() as u64) + ser_chars(s)
}

/// An optional string: a presence tag, then the string when present.
pub open spec fn ser_opt_str(o: Option<Seq<char>>) -> Seq<u8> {
    match o {
        None => seq![0u8],
        Some(s) => seq![1u8] + ser_str(s),
    }
}

/// An optional i64: a presence tag, then the value when present.
pub open spec fn ser_opt_i64(o: Option<i64>) -> Seq<u8> {
    match o {
        None => seq![0u8],
        Some(v) => seq![1u8] + ser_i64(v),
    }
}

/// Each code point in a character sequence takes four bytes.
proof fn lemma_ser_chars_len(s: Seq<char>)
    ensures
        ser_chars(s).len() == 4 * s.len(),
    decreases s.len(),
{
    if s.len() > 0 {
        lemma_ser_chars_len(s.drop_first());
    }
}

/// The `n` characters at `p`, code point by code point, with the next
/// position; `None` on truncation or on a code point that is no Unicode
/// scalar value.
pub open spec fn parse_chars(b: Seq<u8>, p: int, n: nat) -> Option<(Seq<char>, int)>
    decreases n,
{
    if n == 0 {
        Some((Seq::empty(), p))
    } else {
        match parse_u32(b, p) {
            None => None,
            Some((u, q)) => {
                if vstd::utf8::is_scalar(u) {
                    match parse_chars(b, q, (n - 1) as nat) {
                        None => None,
                        Some((s, r)) => Some((seq![u as char] + s, r)),
                    }
                } else {
                    None
                }
            },
        }
    }
}

/// The string at `p`: a character count, then that many code points.
pub open spec fn parse_str(b: Seq<u8>, p: int) -> Option<(Seq<char>, int)> {
    match parse_u64(b, p) {
        None => None,
        Some((n, q)) => parse_chars(b, q, n as nat),
    }
}

/// The optional string at `p`.
pub open spec fn parse_opt_str(b: Seq<u8>, p: int) -> Option<(Option<Seq<char>>, int)> {
    match parse_bool(b, p) {
        None => None,
        Some((present, q)) => {
            if present {
                match parse_str(b, q) {
                    None => None,
                    Some((s, r)) => Some((Some(s), r)),
                }
            } else {
                Some((None, q))
            }
        },
    }
}

/// The optional i64 at `p`.
pub open spec fn parse_opt_i64(b: Seq<u8>, p: int) -> Option<(Option<i64>, int)> {
    match parse_bool(b, p) {
        None => None,
        Some((present, q)) => {
            if present {
                match parse_i64(b, q) {
                    None => None,
                    Some((v, r)) => Some((Some(v), r)),
                }
            } else {
                Some((None, q))
            }
        },
    }
}

/// Parsing serialized code points in place recovers the characters.
proof fn lemma_parse_chars_roundtrip(b: Seq<u8>, p: int, s: Seq<char>)
    requires
        0 <= p,
        p + 4 * s.len() <= b.len(),
        b.subrange(p, p + 4 * s.len()) =~= ser_chars(s),
    ensures
        parse_chars(b, p, s.len()) == Some((s, p + 4 * s.len())),
    decreases s.len(),
{
    if s.len() > 0 {
        let u = s[0] as u32;
        let rest = s.drop_first();
        lemma_ser_chars_len(rest);
        assert forall|k: int| 0 <= k < 4 implies b[p + k] == ser_u32(u)[k] by {
            assert(b.subrange(p, p + 4 * s.len())[k] == b[p + k]);
        }
        assert(b.subrange(p, p + 4) =~= ser_u32(u));
        lemma_parse_u32_roundtrip(b, p, u);
        vstd::utf8::char_is_scalar(s[0]);
        assert forall|k: int| 0 <= k < 4 * rest.len() implies b[p + 4 + k] == ser_chars(rest)[k] by {
            assert(b.subrange(p, p + 4 * s.len())[4 + k] == b[p + 4 + k]);
            assert(ser_chars(s)[4 + k] == ser_chars(rest)[k]);
        }
        assert(b.subrange(p + 4, p + 4 + 4 * rest.len()) =~= ser_chars(rest));
        lemma_parse_chars_roundtrip(b, p + 4, rest);
        vstd::utf8::char_u32_cast(s[0], u);
        assert(seq![u as char] + rest =~= s);
    }
}

/// Parsing a serialized string in place recovers it.
proof fn lemma_parse_str_roundtrip(b: Seq<u8>, p: int, s: Seq<char>)
    requires
        0 <= p,
        s.len() <= u64::MAX,
        p + ser_str(s).len() <= b.len(),
        b.subrange(p, p + ser_str(s).len()) =~= ser_str(s),
    ensures
        ser_str(s).len() == 8 + 4 * s.len(),
        parse_str(b, p) == Some((s, p + ser_str(s).len())),
{
    lemma_ser_chars_len(s);
    let n = s.len() as u64;
    assert forall|k: int| 0 <= k < 8 implies b[p + k] == ser_u64(n)[k] by {
        assert(b.subrange(p, p + ser_str(s).len())[k] == b[p + k]);
        assert(ser_str(s)[k] == ser_u64(n)[k]);
    }
    assert(b.subrange(p, p + 8) =~= ser_u64(n));
    lemma_parse_u64_roundtrip(b, p, n);
    assert forall|k: int| 0 <= k < 4 * s.len() implies b[p + 8 + k] == ser_chars(s)[k] by {
        assert(b.subrange(p, p + ser_str(s).len())[8 + k] == b[p + 8 + k]);
        assert(ser_str(s)[8 + k] == ser_chars(s)[k]);
    }
    assert(b.subrange(p + 8, p + 8 + 4 * s.len()) =~= ser_chars(s));
    lemma_parse_chars_roundtrip(b, p + 8, s);
}

/// Parsing a serialized optional string in place recovers it.
proof fn lemma_parse_opt_str_roundtrip(b: Seq<u8>, p: int, o: Option<Seq<char>>)
    requires
        0 <= p,
        o is Some ==> o->0.len() <= u64::MAX,
        p + ser_opt_str(o).len() <= b.len(),
        b.subrange(p, p + ser_opt_str(o).len()) =~= ser_opt_str(o),
    ensures
        parse_opt_str(b, p) == Some((o, p + ser_opt_str(o).len())),
{
    assert(b.subrange(p, p + ser_opt_str(o).len())[0] == b[p]);
    match o {
        None => {
            assert(b[p] == 0u8);
        },
        Some(s) => {
            assert(b[p] == 1u8);
            assert forall|k: int| 0 <= k < ser_str(s).len() implies b[p + 1 + k] == ser_str(
                s,
            )[k] by {
                assert(b.subrange(p, p + ser_opt_str(o).len())[1 + k] == b[p + 1 + k]);
                assert(ser_opt_str(o)[1 + k] == ser_str(s)[k]);
            }
            assert(b.subrange(p + 1, p + 1 + ser_str(s).len()) =~= ser_str(s));
            lemma_parse_str_roundtrip(b, p + 1, s);
        },
    }
}

/// Parsing a serialized optional i64 in place recovers it.
proof fn lemma_parse_opt_i64_roundtrip(b: Seq<u8>, p: int, o: Option<i64>)
    requires
        0 <= p,
        p + ser_opt_i64(o).len() <= b.len(),
        b.subrange(p, p + ser_opt_i64(o).len()) =~= ser_opt_i64(o),
    ensures
        parse_opt_i64(b, p) == Some((o, p + ser_opt_i64(o).len())),
{
    assert(b.subrange(p, p + ser_opt_i64(o).len())[0] == b[p]);
    match o {
        None => {
            assert(b[p] == 0u8);
        },
        Some(v) => {
            assert(b[p] == 1u8);
            assert forall|k: int| 0 <= k < 8 implies b[p + 1 + k] == ser_i64(v)[k] by {
                assert(b.subrange(p, p + ser_opt_i64(o).len())[1 + k] == b[p + 1 + k]);
                assert(ser_opt_i64(o)[1 + k] == ser_i64(v)[k]);
            }
            assert(b.subrange(p + 1, p + 1 + 8) =~= ser_i64(v));
            lemma_parse_i64_roundtrip(b, p + 1, v);
        },
    }
}

/// Whether a config's strings have encodable lengths. Any config held in
/// memory satisfies this; only the mathematical images beyond machine
/// limits are excluded.
pub open spec fn config_ok(c: crate::registry::WindowConfigView) -> bool {
    &&& c.window_type.len() <= u64::MAX
    &&& c.title.len() <= u64::MAX
    &&& (c.url is Some ==> c.url->0.len() <= u64::MAX)
}

/// The bytes of a window identity and geometry: both strings, the
/// requested size and the optional position, in that order.
#[verifier::opaque]
pub open spec fn ser_geom(c: crate::registry::WindowConfigView) -> Seq<u8> {
    ser_str(c.window_type) + ser_str(c.title) + ser_u32(c.width) + ser_u32(c.height) + ser_opt_i64(
        c.x,
    ) + ser_opt_i64(c.y)
}

/// The bytes of the nine capability flags, one byte each.
#[verifier::opaque]
pub open spec fn ser_flags(c: crate::registry::WindowConfigView) -> Seq<u8> {
    ser_bool(c.resizable) + ser_bool(c.minimizable) + ser_bool(c.maximizable) + ser_bool(
        c.closable,
    ) + ser_bool(c.always_on_top) + ser_bool(c.decorations) + ser_bool(c.transparent) + ser_bool(
        c.focus,
    ) + ser_bool(c.fullscreen)
}

/// The bytes of a window configuration: identity and geometry, the
/// capability flags, then the optional content source.
#[verifier::opaque]
pub open spec fn ser_config(c: crate::registry::WindowConfigView) -> Seq<u8> {
    ser_geom(c) + ser_flags(c) + ser_opt_str(c.url)
}

/// The identity-and-geometry fields at `p`.
#[verifier::opaque]
pub open spec fn parse_geom(b: Seq<u8>, p: int) -> Option<
    ((Seq<char>, Seq<char>, u32, u32, Option<i64>, Option<i64>), int),
> {
    match parse_str(b, p) {
        None => None,
        Some((window_type, p)) => match parse_str(b, p) {
            None => None,
            Some((title, p)) => match parse_u32(b, p) {
                None => None,
                Some((width, p)) => match parse_u32(b, p) {
                    None => None,
                    Some((height, p)) => match parse_opt_i64(b, p) {
                        None => None,
                        Some((x, p)) => match parse_opt_i64(b, p) {
                            None => None,
                            Some((y, p)) => Some(((window_type, title, width, height, x, y), p)),
                        },
                    },
                },
            },
        },
    }
}

/// The nine capability flags at `p`.
#[verifier::opaque]
pub open spec fn parse_flags(b: Seq<u8>, p: int) -> Option<
    ((bool, bool, bool, bool, bool, bool, bool, bool, bool), int),
> {
    match parse_bool(b, p) {
        None => None,
        Some((resizable, p)) => match parse_bool(b, p) {
            None => None,
            Some((minimizable, p)) => match parse_bool(b, p) {
                None => None,
                Some((maximizable, p)) => match parse_bool(b, p) {
                    None => None,
                    Some((closable, p)) => match parse_bool(b, p) {
                        None => None,
                        Some((always_on_top, p)) => match parse_bool(b, p) {
                            None => None,
                            Some((decorations, p)) => match parse_bool(b, p) {
                                None => None,
                                Some((transparent, p)) => match parse_bool(b, p) {
                                    None => None,
                                    Some((focus, p)) => match parse_bool(b, p) {
                                        None => None,
                                        Some((fullscreen, p)) => Some(
                                            (
                                                (
                                                    resizable,
                                                    minimizable,
                                                    maximizable,
                                                    closable,
                                                    always_on_top,
                                                    decorations,
                                                    transparent,
                                                    focus,
                                                    fullscreen,
                                                ),
                                                p,
                                            ),
                                        ),
                                    },
                                },
                            },
                        },
                    },
                },
            },
        },
    }
}

/// The window configuration at `p`.
#[verifier::opaque]
pub open spec fn parse_config(b: Seq<u8>, p: int) -> Option<
    (crate::registry::WindowConfigView, int),
> {
    match parse_geom(b, p) {
        None => None,
        Some((g, p)) => match parse_flags(b, p) {
            None => None,
            Some((f, p)) => match parse_opt_str(b, p) {
                None => None,
                Some((url, p)) => Some(
                    (
                        crate::registry::WindowConfigView {
                            window_type: g.0,
                            title: g.1,
                            width: g.2,
                            height: g.3,
                            x: g.4,
                            y: g.5,
                            resizable: f.0,
                            minimizable: f.1,
                            maximizable: f.2,
                            closable: f.3,
                            always_on_top: f.4,
                            decorations: f.5,
                            transparent: f.6,
                            focus: f.7,
                            fullscreen: f.8,
                            url,
                        },
                        p,
                    ),
                ),
            },
        },
    }
}

/// Parsing a boolean whose byte is in place recovers it.
proof fn lemma_parse_bool_at(b: Seq<u8>, p: int, v: bool)
    requires
        0 <= p,
        p + 1 <= b.len(),
        b[p] == ser_bool(v)[0],
    ensures
        parse_bool(b, p) == Some((v, p + 1)),
{
}

/// Parsing serialized identity-and-geometry fields in place recovers them.
proof fn lemma_parse_geom_roundtrip(b: Seq<u8>, p: int, c: crate::registry::WindowConfigView)
    requires
        0 <= p,
        config_ok(c),
        p + ser_geom(c).len() <= b.len(),
        b.subrange(p, p + ser_geom(c).len()) =~= ser_geom(c),
    ensures
        parse_geom(b, p) == Some(
            ((c.window_type, c.title, c.width, c.height, c.x, c.y), p + ser_geom(c).len()),
        ),
{
    reveal(ser_geom);
    reveal(parse_geom);
    let e = ser_geom(c);
    let l1 = ser_str(c.window_type).len() as int;
    let l2 = ser_str(c.title).len() as int;
    let l5 = ser_opt_i64(c.x).len() as int;
    let l6 = ser_opt_i64(c.y).len() as int;
    let o1 = 0int;
    let o2 = l1;
    let o3 = o2 + l2;
    let o4 = o3 + 4;
    let o5 = o4 + 4;
    let o6 = o5 + l5;
    assert(e.len() == o6 + l6);
    b.lemma_slice_of_slice(p, p + e.len(), o1, l1);
    assert(e.subrange(o1, l1) =~= ser_str(c.window_type));
    lemma_parse_str_roundtrip(b, p, c.window_type);
    b.lemma_slice_of_slice(p, p + e.len(), o2, o2 + l2);
    assert(e.subrange(o2, o2 + l2) =~= ser_str(c.title));
    lemma_parse_str_roundtrip(b, p + o2, c.title);
    b.lemma_slice_of_slice(p, p + e.len(), o3, o3 + 4);
    assert(e.subrange(o3, o3 + 4) =~= ser_u32(c.width));
    lemma_parse_u32_roundtrip(b, p + o3, c.width);
    b.lemma_slice_of_slice(p, p + e.len(), o4, o4 + 4);
    assert(e.subrange(o4, o4 + 4) =~= ser_u32(c.height));
    lemma_parse_u32_roundtrip(b, p + o4, c.height);
    b.lemma_slice_of_slice(p, p + e.len(), o5, o5 + l5);
    assert(e.subrange(o5, o5 + l5) =~= ser_opt_i64(c.x));
    lemma_parse_opt_i64_roundtrip(b, p + o5, c.x);
    b.lemma_slice_of_slice(p, p + e.len(), o6, o6 + l6);
    assert(e.subrange(o6, o6 + l6) =~= ser_opt_i64(c.y));
    lemma_parse_opt_i64_roundtrip(b, p + o6, c.y);
}

/// Parsing the serialized capability flags in place recovers them.
#[verifier::rlimit(100)]
proof fn lemma_parse_flags_roundtrip(b: Seq<u8>, p: int, c: crate::registry::WindowConfigView)
    requires
        0 <= p,
        p + 9 <= b.len(),
        b.subrange(p, p + 9) =~= ser_flags(c),
    ensures
        ser_flags(c).len() == 9,
        parse_flags(b, p) == Some(
            (
                (
                    c.resizable,
                    c.minimizable,
                    c.maximizable,
                    c.closable,
                    c.always_on_top,
                    c.decorations,
                    c.transparent,
                    c.focus,
                    c.fullscreen,
                ),
                p + 9,
            ),
        ),
{
    reveal(ser_flags);
    reveal(parse_flags);
    let e = ser_flags(c);
    assert(b.subrange(p, p + 9)[0] == b[p + 0]);
    assert(e[0] == ser_bool(c.resizable)[0]);
    lemma_parse_bool_at(b, p + 0, c.resizable);
    assert(b.subrange(p, p + 9)[1] == b[p + 1]);
    assert(e[1] == ser_bool(c.minimizable)[0]);
    lemma_parse_bool_at(b, p + 1, c.minimizable);
    assert(b.subrange(p, p + 9)[2] == b[p + 2]);
    assert(e[2] == ser_bool(c.maximizable)[0]);
    lemma_parse_bool_at(b, p + 2, c.maximizable);
    assert(b.subrange(p, p + 9)[3] == b[p + 3]);
    assert(e[3] == ser_bool(c.closable)[0]);
    lemma_parse_bool_at(b, p + 3, c.closable);
    assert(b.subrange(p, p + 9)[4] == b[p + 4]);
    assert(e[4] == ser_bool(c.always_on_top)[0]);
    lemma_parse_bool_at(b, p + 4, c.always_on_top);
    assert(b.subrange(p, p + 9)[5] == b[p + 5]);
    assert(e[5] == ser_bool(c.decorations)[0]);
    lemma_parse_bool_at(b, p + 5, c.decorations);
    assert(b.subrange(p, p + 9)[6] == b[p + 6]);
    assert(e[6] == ser_bool(c.transparent)[0]);
    lemma_parse_bool_at(b, p + 6, c.transparent);
    assert(b.subrange(p, p + 9)[7] == b[p + 7]);
    assert(e[7] == ser_bool(c.focus)[0]);
    lemma_parse_bool_at(b, p + 7, c.focus);
    assert(b.subrange(p, p + 9)[8] == b[p + 8]);
    assert(e[8] == ser_bool(c.fullscreen)[0]);
    lemma_parse_bool_at(b, p + 8, c.fullscreen);
}

/// Parsing a serialized window configuration in place recovers it.
proof fn lemma_parse_config_roundtrip(b: Seq<u8>, p: int, c: crate::registry::WindowConfigView)
    requires
        0 <= p,
        config_ok(c),
        p + ser_config(c).len() <= b.len(),
        b.subrange(p, p + ser_config(c).len()) =~= ser_config(c),
    ensures
        parse_config(b, p) == Some((c, p + ser_config(c).len())),
{
    reveal(ser_config);
    reveal(parse_config);
    reveal(ser_flags);
    let e = ser_config(c);
    let lg = ser_geom(c).len() as int;
    let lu = ser_opt_str(c.url).len() as int;
    assert(ser_flags(c).len() == 9);
    assert(e.len() == lg + 9 + lu);
    b.lemma_slice_of_slice(p, p + e.len(), 0, lg);
    assert(e.subrange(0, lg) =~= ser_geom(c));
    lemma_parse_geom_roundtrip(b, p, c);
    b.lemma_slice_of_slice(p, p + e.len(), lg, lg + 9);
    assert(e.subrange(lg, lg + 9) =~= ser_flags(c));
    lemma_parse_flags_roundtrip(b, p + lg, c);
    b.lemma_slice_of_slice(p, p + e.len(), lg + 9, lg + 9 + lu);
    assert(e.subrange(lg + 9, lg + 9 + lu) =~= ser_opt_str(c.url));
    lemma_parse_opt_str_roundtrip(b, p + lg + 9, c.url);
}

/// Whether a record's strings have encodable lengths.
pub open spec fn state_ok(w: crate::registry::WindowStateView) -> bool {
    &&& w.label.len() <= u64::MAX
    &&& config_ok(w.config)
    &&& (w.monitor_id is Some ==> w.monitor_id->0.len() <= u64::MAX)
}

/// Whether every record in a sequence has encodable strings.
pub open spec fn states_ok(s: Seq<crate::registry::WindowStateView>) -> bool {
    forall|i: int| 0 <= i < s.len() ==> state_ok(#[trigger] s[i])
}

/// The bytes of a record's three presentation flags, one byte each.
pub open spec fn ser_state_flags(w: crate::registry::WindowStateView) -> Seq<u8> {
    ser_bool(w.is_focused) + ser_bool(w.is_minimized) + ser_bool(w.is_maximized)
}

/// The bytes of one window record: label, configuration, z-order, the
/// presentation flags, the monitor association, and both timestamps.
#[verifier::opaque]
pub open spec fn ser_state(w: crate::registry::WindowStateView) -> Seq<u8> {
    ser_str(w.label) + ser_config(w.config) + ser_u32(w.z_order) + ser_state_flags(w)
        + ser_opt_str(w.monitor_id) + ser_u64(w.created_at) + ser_u64(w.last_focused_at)
}

/// The three presentation flags at `p`.
pub open spec fn parse_state_flags(b: Seq<u8>, p: int) -> Option<((bool, bool, bool), int)> {
    match parse_bool(b, p) {
        None => None,
        Some((is_focused, p)) => match parse_bool(b, p) {
            None => None,
            Some((is_minimized, p)) => match parse_bool(b, p) {
                None => None,
                Some((is_maximized, p)) => Some(((is_focused, is_minimized, is_maximized), p)),
            },
        },
    }
}

/// The window record at `p`, field by field.
#[verifier::opaque]
pub open spec fn parse_state(b: Seq<u8>, p: int) -> Option<
    (crate::registry::WindowStateView, int),
> {
    match parse_str(b, p) {
        None => None,
        Some((label, p)) => match parse_config(b, p) {
            None => None,
            Some((config, p)) => match parse_u32(b, p) {
                None => None,
                Some((z_order, p)) => match parse_state_flags(b, p) {
                    None => None,
                    Some((f, p)) => match parse_opt_str(b, p) {
                        None => None,
                        Some((monitor_id, p)) => match parse_u64(b, p) {
                            None => None,
                            Some((created_at, p)) => match parse_u64(b, p) {
                                None => None,
                                Some((last_focused_at, p)) => Some(
                                    (
                                        crate::registry::WindowStateView {
                                            label,
                                            config,
                                            z_order,
                                            is_focused: f.0,
                                            is_minimized: f.1,
                                            is_maximized: f.2,
                                            monitor_id,
                                            created_at,
                                            last_focused_at,
                                        },
                                        p,
                                    ),
                                ),
                            },
                        },
                    },
                },
            },
        },
    }
}

/// Parsing the serialized presentation flags in place recovers them.
proof fn lemma_parse_state_flags_roundtrip(
    b: Seq<u8>,
    p: int,
    w: crate::registry::WindowStateView,
)
    requires
        0 <= p,
        p + 3 <= b.len(),
        b.subrange(p, p + 3) =~= ser_state_flags(w),
    ensures
        parse_state_flags(b, p) == Some(
            ((w.is_focused, w.is_minimized, w.is_maximized), p + 3),
        ),
{
    let e = ser_state_flags(w);
    assert(b.subrange(p, p + 3)[0] == b[p + 0]);
    assert(e[0] == ser_bool(w.is_focused)[0]);
    lemma_parse_bool_at(b, p + 0, w.is_focused);
    assert(b.subrange(p, p + 3)[1] == b[p + 1]);
    assert(e[1] == ser_bool(w.is_minimized)[0]);
    lemma_parse_bool_at(b, p + 1, w.is_minimized);
    assert(b.subrange(p, p + 3)[2] == b[p + 2]);
    assert(e[2] == ser_bool(w.is_maximized)[0]);
    lemma_parse_bool_at(b, p + 2, w.is_maximized);
}

/// Parsing a serialized window record in place recovers it.
#[verifier::rlimit(100)]
proof fn lemma_parse_state_roundtrip(b: Seq<u8>, p: int, w: crate::registry::WindowStateView)
    requires
        0 <= p,
        state_ok(w),
        p + ser_state(w).len() <= b.len(),
        b.subrange(p, p + ser_state(w).len()) =~= ser_state(w),
    ensures
        parse_state(b, p) == Some((w, p + ser_state(w).len())),
{
    reveal(ser_state);
    reveal(parse_state);
    let e = ser_state(w);
    let l1 = ser_str(w.label).len() as int;
    let l2 = ser_config(w.config).len() as int;
    let l5 = ser_opt_str(w.monitor_id).len() as int;
    let o1 = 0int;
    let o2 = l1;
    let o3 = o2 + l2;
    let o4 = o3 + 4;
    let o5 = o4 + 3;
    let o6 = o5 + l5;
    let o7 = o6 + 8;
    assert(e.len() == o7 + 8);
    b.lemma_slice_of_slice(p, p + e.len(), o1, l1);
    assert(e.subrange(o1, l1) =~= ser_str(w.label));
    lemma_parse_str_roundtrip(b, p, w.label);
    b.lemma_slice_of_slice(p, p + e.len(), o2, o2 + l2);
    assert(e.subrange(o2, o2 + l2) =~= ser_config(w.config));
    lemma_parse_config_roundtrip(b, p + o2, w.config);
    b.lemma_slice_of_slice(p, p + e.len(), o3, o3 + 4);
    assert(e.subrange(o3, o3 + 4) =~= ser_u32(w.z_order));
    lemma_parse_u32_roundtrip(b, p + o3, w.z_order);
    b.lemma_slice_of_slice(p, p + e.len(), o4, o4 + 3);
    assert(e.subrange(o4, o4 + 3) =~= ser_state_flags(w));
    lemma_parse_state_flags_roundtrip(b, p + o4, w);
    b.lemma_slice_of_slice(p, p + e.len(), o5, o5 + l5);
    assert(e.subrange(o5, o5 + l5) =~= ser_opt_str(w.monitor_id));
    lemma_parse_opt_str_roundtrip(b, p + o5, w.monitor_id);
    b.lemma_slice_of_slice(p, p + e.len(), o6, o6 + 8);
    assert(e.subrange(o6, o6 + 8) =~= ser_u64(w.created_at));
    lemma_parse_u64_roundtrip(b, p + o6, w.created_at);
    b.lemma_slice_of_slice(p, p + e.len(), o7, o7 + 8);
    assert(e.subrange(o7, o7 + 8) =~= ser_u64(w.last_focused_at));
    lemma_parse_u64_roundtrip(b, p + o7, w.last_focused_at);
}

/// The bytes of a sequence of records, in order.
pub open spec fn ser_states(s: Seq<crate::registry::WindowStateView>) -> Seq<u8>
    decreases s.len(),
{
    if s.len() == 0 {
        Seq::empty()
    } else {
        ser_state(s[0]) + ser_states(s.drop_first())
    }
}

/// The `n` records at `p`, in order, with the next position.
pub open spec fn parse_states(b: Seq<u8>, p: int, n: nat) -> Option<
    (Seq<crate::registry::WindowStateView>, int),
>
    decreases n,
{
    if n == 0 {
        Some((Seq::empty(), p))
    } else {
        match parse_state(b, p) {
            None => None,
            Some((w, q)) => match parse_states(b, q, (n - 1) as nat) {
                None => None,
                Some((s, r)) => Some((seq![w] + s, r)),
            },
        }
    }
}

/// Parsing serialized records in place recovers them, in order.
#[verifier::rlimit(100)]
proof fn lemma_parse_states_roundtrip(
    b: Seq<u8>,
    p: int,
    s: Seq<crate::registry::WindowStateView>,
)
    requires
        0 <= p,
        states_ok(s),
        p + ser_states(s).len() <= b.len(),
        b.subrange(p, p + ser_states(s).len()) =~= ser_states(s),
    ensures
        parse_states(b, p, s.len()) == Some((s, p + ser_states(s).len())),
    decreases s.len(),
{
    if s.len() > 0 {
        let e = ser_states(s);
        let w = s[0];
        let rest = s.drop_first();
        let lw = ser_state(w).len() as int;
        let lr = ser_states(rest).len() as int;
        assert(e.len() == lw + lr);
        b.lemma_slice_of_slice(p, p + e.len(), 0, lw);
        assert(e.subrange(0, lw) =~= ser_state(w));
        lemma_parse_state_roundtrip(b, p, w);
        b.lemma_slice_of_slice(p, p + e.len(), lw, lw + lr);
        assert(e.subrange(lw, lw + lr) =~= ser_states(rest));
        assert(states_ok(rest));
        lemma_parse_states_roundtrip(b, p + lw, rest);
        assert(seq![w] + rest =~= s);
    }
}

/// The leading bytes of every layout: a two-byte tag and the format
/// version.
pub open spec fn magic_bytes() -> Seq<u8> {
    seq![87u8, 76u8, 1u8]
}

/// The bytes of a whole layout: the tag and version, the record count as a
/// u64, then every record in order.
pub open spec fn ser_layout(s: Seq<crate::registry::WindowStateView>) -> Seq<u8> {
    magic_bytes() + ser_u64(s.len() as u64) + ser_states(s)
}

/// The records encoded by `b`, when `b` is a complete, well-formed layout:
/// the tag, version and count must be present, every record must parse,
/// and no bytes may trail the last record.
pub open spec fn parse_layout(b: Seq<u8>) -> Option<Seq<crate::registry::WindowStateView>> {
    if b.len() >= 3 && b[0] == 87u8 && b[1] == 76u8 && b[2] == 1u8 {
        match parse_u64(b, 3) {
            None => None,
            Some((n, p)) => match parse_states(b, p, n as nat) {
                None => None,
                Some((s, q)) => {
                    if q == b.len() {
                        Some(s)
                    } else {
                        None
                    }
                },
            },
        }
    } else {
        None
    }
}

/// Round trip: parsing a serialized layout gives back exactly the records
/// that were serialized — order and every field preserved. Holds for every
/// sequence of records whose strings and count fit the encoding's u64
/// lengths, which covers every sequence a program can hold in memory.
#[verifier::rlimit(100)]
pub proof fn lemma_layout_round_trip(s: Seq<crate::registry::WindowStateView>)
    requires
        states_ok(s),
        s.len() <= u64::MAX,
    ensures
        parse_layout(ser_layout(s)) == Some(s),
{
    let b = ser_layout(s);
    let n = s.len() as u64;
    let lr = ser_states(s).len() as int;
    assert(b.len() == 11 + lr);
    assert(b[0] == 87u8 && b[1] == 76u8 && b[2] == 1u8);
    assert(b.subrange(3, 11) =~= ser_u64(n));
    lemma_parse_u64_roundtrip(b, 3, n);
    assert(b.subrange(11, 11 + lr) =~= ser_states(s));
    lemma_parse_states_roundtrip(b, 11, s);
}

/// Appending the bytes of one more character extends a character
/// serialization on the right.
proof fn lemma_ser_chars_snoc(s: Seq<char>, c: char)
    ensures
        ser_chars(s.push(c)) =~= ser_chars(s) + ser_u32(c as u32),
    decreases s.len(),
{
    if s.len() == 0 {
        assert(s.push(c)[0] == c);
        assert(s.push(c).drop_first() =~= s);
        assert(ser_chars(s.push(c)) == ser_u32(c as u32) + ser_chars(s));
        assert(ser_chars(s) == Seq::<u8>::empty());
    } else {
        assert(s.push(c)[0] == s[0]);
        assert(s.push(c).drop_first() =~= s.drop_first().push(c));
        lemma_ser_chars_snoc(s.drop_first(), c);
        assert(ser_chars(s.push(c)) == ser_u32(s[0] as u32) + ser_chars(s.drop_first().push(c)));
        assert(ser_chars(s.drop_first().push(c)) == ser_chars(s.drop_first()) + ser_u32(c as u32));
        assert(ser_chars(s) == ser_u32(s[0] as u32) + ser_chars(s.drop_first()));
    }
}

/// Appending the bytes of one more record extends a record serialization
/// on the right.
#[verifier::rlimit(100)]
proof fn lemma_ser_states_snoc(s: Seq<crate::registry::WindowStateView>, w: crate::registry::WindowStateView)
    ensures
        ser_states(s.push(w)) =~= ser_states(s) + ser_state(w),
    decreases s.len(),
{
    if s.len() == 0 {
        assert(s.push(w)[0] == w);
        assert(s.push(w).drop_first() =~= s);
        assert(ser_states(s.push(w)) == ser_state(w) + ser_states(s));
        assert(ser_states(s) == Seq::<u8>::empty());
    } else {
        assert(s.push(w)[0] == s[0]);
        assert(s.push(w).drop_first() =~= s.drop_first().push(w));
        lemma_ser_states_snoc(s.drop_first(), w);
        assert(ser_states(s.push(w)) == ser_state(s[0]) + ser_states(s.drop_first().push(w)));
        assert(ser_states(s.drop_first().push(w)) == ser_states(s.drop_first()) + ser_state(w));
        assert(ser_states(s) == ser_state(s[0]) + ser_states(s.drop_first()));
    }
}

/// Appends the big-endian bytes of a u64.
fn write_u64(out: &mut Vec<u8>, v: u64)
    ensures
        final(out)@ =~= old(out)@ + ser_u64(v),
{
    out.push((v >> 56) as u8);
    out.push((v >> 48) as u8);
    out.push((v >> 40) as u8);
    out.push((v >> 32) as u8);
    out.push((v >> 24) as u8);
    out.push((v >> 16) as u8);
    out.push((v >> 8) as u8);
    out.push(v as u8);
}

/// Appends the big-endian bytes of a u32.
fn write_u32(out: &mut Vec<u8>, v: u32)
    ensures
        final(out)@ =~= old(out)@ + ser_u32(v),
{
    out.push((v >> 24) as u8);
    out.push((v >> 16) as u8);
    out.push((v >> 8) as u8);
    out.push(v as u8);
}

/// Appends one byte for a boolean.
fn write_bool(out: &mut Vec<u8>, v: bool)
    ensures
        final(out)@ =~= old(out)@ + ser_bool(v),
{
    out.push(
        if v {
            1u8
        } else {
            0u8
        },
    );
}

/// Appends the bytes of an i64 through its two's-complement image.
fn write_i64(out: &mut Vec<u8>, v: i64)
    ensures
        final(out)@ =~= old(out)@ + ser_i64(v),
{
    write_u64(out, v as u64);
}

/// Appends a string: its character count, then each code point.
fn write_str(out: &mut Vec<u8>, s: &str)
    ensures
        final(out)@ =~= old(out)@ + ser_str(s@),
{
    let n = s.unicode_len();
    write_u64(out, n as u64);
    let ghost start = out@;
    let mut i: usize = 0;
    while i < n
        invariant
            n == s@.len(),
            i <= n,
            out@ =~= start + ser_chars(s@.take(i as int)),
        decreases n - i,
    {
        let c = s.get_char(i);
        let ghost pre = out@;
        write_u32(out, c as u32);
        proof {
            assert(s@.take(i + 1) =~= s@.take(i as int).push(c));
            lemma_ser_chars_snoc(s@.take(i as int), c);
            assert(out@ =~= start + ser_chars(s@.take(i + 1)));
        }
        i += 1;
    }
    proof {
        assert(s@.take(n as int) =~= s@);
    }
}

/// Appends an optional string: a presence tag, then the string if present.
fn write_opt_str(out: &mut Vec<u8>, o: &Option<String>)
    ensures
        final(out)@ =~= old(out)@ + ser_opt_str(crate::registry::opt_str_view(*o)),
{
    match o {
        None => {
            out.push(0u8);
        },
        Some(s) => {
            out.push(1u8);
            write_str(out, s.as_str());
        },
    }
}

/// Appends an optional i64: a presence tag, then the value if present.
fn write_opt_i64(out: &mut Vec<u8>, o: &Option<i64>)
    ensures
        final(out)@ =~= old(out)@ + ser_opt_i64(*o),
{
    match o {
        None => {
            out.push(0u8);
        },
        Some(v) => {
            out.push(1u8);
            write_i64(out, *v);
        },
    }
}

/// Appends the identity-and-geometry fields of a configuration.
fn write_geom(out: &mut Vec<u8>, c: &crate::registry::WindowConfig)
    ensures
        final(out)@ =~= old(out)@ + ser_geom(c@),
{
    proof {
        reveal(ser_geom);
    }
    write_str(out, c.window_type.as_str());
    write_str(out, c.title.as_str());
    write_u32(out, c.width);
    write_u32(out, c.height);
    write_opt_i64(out, &c.x);
    write_opt_i64(out, &c.y);
}

/// Appends the nine capability flags of a configuration.
#[verifier::rlimit(100)]
fn write_flags(out: &mut Vec<u8>, c: &crate::registry::WindowConfig)
    ensures
        final(out)@ =~= old(out)@ + ser_flags(c@),
{
    out.push(
        if c.resizable {
            1u8
        } else {
            0u8
        },
    );
    out.push(
        if c.minimizable {
            1u8
        } else {
            0u8
        },
    );
    out.push(
        if c.maximizable {
            1u8
        } else {
            0u8
        },
    );
    out.push(
        if c.closable {
            1u8
        } else {
            0u8
        },
    );
    out.push(
        if c.always_on_top {
            1u8
        } else {
            0u8
        },
    );
    out.push(
        if c.decorations {
            1u8
        } else {
            0u8
        },
    );
    out.push(
        if c.transparent {
            1u8
        } else {
            0u8
        },
    );
    out.push(
        if c.focus {
            1u8
        } else {
            0u8
        },
    );
    out.push(
        if c.fullscreen {
            1u8
        } else {
            0u8
        },
    );
    proof {
        reveal(ser_flags);
        assert(final(out)@ =~= old(out)@ + ser_flags(c@));
    }
}

/// Appends the bytes of a window configuration.
fn write_config(out: &mut Vec<u8>, c: &crate::registry::WindowConfig)
    ensures
        final(out)@ =~= old(out)@ + ser_config(c@),
{
    proof {
        reveal(ser_config);
    }
    write_geom(out, c);
    write_flags(out, c);
    write_opt_str(out, &c.url);
}

/// Appends the bytes of one window record.
#[verifier::rlimit(100)]
fn write_state(out: &mut Vec<u8>, w: &crate::registry::WindowState)
    ensures
        final(out)@ =~= old(out)@ + ser_state(w@),
{
    proof {
        reveal(ser_state);
    }
    write_str(out, w.label.as_str());
    write_config(out, &w.config);
    write_u32(out, w.z_order);
    write_bool(out, w.is_focused);
    write_bool(out, w.is_minimized);
    write_bool(out, w.is_maximized);
    write_opt_str(out, &w.monitor_id);
    write_u64(out, w.created_at);
    write_u64(out, w.last_focused_at);
}

/// Serializes an ordered sequence of window records into the persistence
/// format. The output is pinned byte for byte by `ser_layout`, so equal
/// records always give identical bytes, and `deserialize_layout` recovers
/// them exactly.
pub fn serialize_layout(records: &Vec<crate::registry::WindowState>) -> (r: Vec<u8>)
    ensures
        r@ =~= ser_layout(crate::registry::views_of(records@)),
{
    let mut out: Vec<u8> = Vec::new();
    out.push(87u8);
    out.push(76u8);
    out.push(1u8);
    assert(out@ =~= magic_bytes());
    write_u64(&mut out, records.len() as u64);
    let ghost start = out@;
    let ghost all = crate::registry::views_of(records@);
    let mut i: usize = 0;
    while i < records.len()
        invariant
            i <= records@.len(),
            all == crate::registry::views_of(records@),
            out@ =~= start + ser_states(all.take(i as int)),
        decreases records@.len() - i,
    {
        write_state(&mut out, &records[i]);
        proof {
            assert(all.take(i + 1) =~= all.take(i as int).push(all[i as int]));
            lemma_ser_states_snoc(all.take(i as int), all[i as int]);
            assert(all[i as int] == records@[i as int]@);
        }
        i += 1;
    }
    proof {
        assert(all.take(records@.len() as int) =~= all);
        assert((records@.len() as u64) == (all.len() as u64));
    }
    out
}

/// A malformed, truncated or version-mismatched saved layout. Parsing
/// never produces partial state: any defect rejects the whole input.
#[derive(Debug, PartialEq)]
pub struct PersistenceFormatError {}

/// Reads the big-endian u64 at `p`.
fn read_u64(b: &Vec<u8>, p: usize) -> (r: Option<(u64, usize)>)
    ensures
        match r {
            Some((v, q)) => parse_u64(b@, p as int) == Some((v, q as int)) && q <= b@.len(),
            None => parse_u64(b@, p as int) is None,
        },
{
    if p <= b.len() && b.len() - p >= 8 {
        let v = ((b[p] as u64) << 56) | ((b[p + 1] as u64) << 48) | ((b[p + 2] as u64) << 40) | ((
        b[p + 3] as u64) << 32) | ((b[p + 4] as u64) << 24) | ((b[p + 5] as u64) << 16) | ((b[p
            + 6] as u64) << 8) | (b[p + 7] as u64);
        Some((v, p + 8))
    } else {
        None
    }
}

/// Reads the big-endian u32 at `p`.
fn read_u32(b: &Vec<u8>, p: usize) -> (r: Option<(u32, usize)>)
    ensures
        match r {
            Some((v, q)) => parse_u32(b@, p as int) == Some((v, q as int)) && q <= b@.len(),
            None => parse_u32(b@, p as int) is None,
        },
{
    if p <= b.len() && b.len() - p >= 4 {
        let v = ((b[p] as u32) << 24) | ((b[p + 1] as u32) << 16) | ((b[p + 2] as u32) << 8) | (b[p
            + 3] as u32);
        Some((v, p + 4))
    } else {
        None
    }
}

/// Reads the boolean byte at `p`.
fn read_bool(b: &Vec<u8>, p: usize) -> (r: Option<(bool, usize)>)
    ensures
        match r {
            Some((v, q)) => parse_bool(b@, p as int) == Some((v, q as int)) && q <= b@.len(),
            None => parse_bool(b@, p as int) is None,
        },
{
    if p < b.len() {
        if b[p] == 0u8 {
            Some((false, p + 1))
        } else if b[p] == 1u8 {
            Some((true, p + 1))
        } else {
            None
        }
    } else {
        None
    }
}

/// Reads the i64 at `p` through its two's-complement image.
fn read_i64(b: &Vec<u8>, p: usize) -> (r: Option<(i64, usize)>)
    ensures
        match r {
            Some((v, q)) => parse_i64(b@, p as int) == Some((v, q as int)) && q <= b@.len(),
            None => parse_i64(b@, p as int) is None,
        },
{
    match read_u64(b, p) {
        None => None,
        Some((v, q)) => Some((v as i64, q)),
    }
}

/// Reads the string at `p`: a character count, then that many code points.
fn read_str(b: &Vec<u8>, p: usize) -> (r: Option<(String, usize)>)
    ensures
        match r {
            Some((s, q)) => parse_str(b@, p as int) == Some((s@, q as int)) && q <= b@.len(),
            None => parse_str(b@, p as int) is None,
        },
{
    let first = read_u64(b, p);
    match first {
        None => None,
        Some((n, q0)) => {
            let mut acc = String::new();
            let mut pos = q0;
            let mut k: u64 = 0;
            while k < n
                invariant
                    parse_u64(b@, p as int) == Some((n, q0 as int)),
                    k <= n,
                    pos <= b@.len(),
                    parse_chars(b@, q0 as int, n as nat) == (match parse_chars(
                        b@,
                        pos as int,
                        (n - k) as nat,
                    ) {
                        Some((t, r2)) => Some((acc@ + t, r2)),
                        None => None::<(Seq<char>, int)>,
                    }),
                decreases n - k,
            {
                let nxt = read_u32(b, pos);
                match nxt {
                    None => {
                        return None;
                    },
                    Some((u, q1)) => {
                        let co = crate::char_from_u32(u);
                        match co {
                            None => {
                                return None;
                            },
                            Some(c) => {
                                proof {
                                    vstd::utf8::char_u32_cast(c, u);
                                }
                                let ghost acc_old = acc@;
                                crate::push_char(&mut acc, c);
                                proof {
                                    let old_rem = parse_chars(b@, pos as int, (n - k) as nat);
                                    let new_rem = parse_chars(b@, q1 as int, (n - k - 1) as nat);
                                    match new_rem {
                                        None => {
                                            assert(old_rem is None);
                                        },
                                        Some((t, r2)) => {
                                            assert(old_rem == Some((seq![c] + t, r2)));
                                            assert(acc_old + (seq![c] + t) =~= acc@ + t);
                                        },
                                    }
                                }
                                pos = q1;
                                k = k + 1;
                            },
                        }
                    },
                }
            }
            proof {
                assert(parse_chars(b@, pos as int, (n - k) as nat) == Some(
                    (Seq::<char>::empty(), pos as int),
                ));
                assert(acc@ + Seq::<char>::empty() =~= acc@);
            }
            Some((acc, pos))
        },
    }
}

/// Reads the optional string at `p`.
fn read_opt_str(b: &Vec<u8>, p: usize) -> (r: Option<(Option<String>, usize)>)
    ensures
        match r {
            Some((o, q)) => parse_opt_str(b@, p as int) == Some(
                (crate::registry::opt_str_view(o), q as int),
            ) && q <= b@.len(),
            None => parse_opt_str(b@, p as int) is None,
        },
{
    match read_bool(b, p) {
        None => None,
        Some((present, q)) => {
            if present {
                match read_str(b, q) {
                    None => None,
                    Some((s, q2)) => Some((Some(s), q2)),
                }
            } else {
                Some((None, q))
            }
        },
    }
}

/// Reads the optional i64 at `p`.
fn read_opt_i64(b: &Vec<u8>, p: usize) -> (r: Option<(Option<i64>, usize)>)
    ensures
        match r {
            Some((o, q)) => parse_opt_i64(b@, p as int) == Some((o, q as int)) && q <= b@.len(),
            None => parse_opt_i64(b@, p as int) is None,
        },
{
    match read_bool(b, p) {
        None => None,
        Some((present, q)) => {
            if present {
                match read_i64(b, q) {
                    None => None,
                    Some((v, q2)) => Some((Some(v), q2)),
                }
            } else {
                Some((None, q))
            }
        },
    }
}

/// Reads the identity-and-geometry fields at `p`.
#[verifier::rlimit(100)]
fn read_geom(b: &Vec<u8>, p: usize) -> (r: Option<
    ((String, String, u32, u32, Option<i64>, Option<i64>), usize),
>)
    ensures
        match r {
            Some((g, q)) => parse_geom(b@, p as int) == Some(
                ((g.0@, g.1@, g.2, g.3, g.4, g.5), q as int),
            ) && q <= b@.len(),
            None => parse_geom(b@, p as int) is None,
        },
{
    proof {
        reveal(parse_geom);
    }
    let r1 = read_str(b, p);
    match r1 {
        None => None,
        Some((window_type, p)) => match read_str(b, p) {
            None => None,
            Some((title, p)) => match read_u32(b, p) {
                None => None,
                Some((width, p)) => match read_u32(b, p) {
                    None => None,
                    Some((height, p)) => match read_opt_i64(b, p) {
                        None => None,
                        Some((x, p)) => match read_opt_i64(b, p) {
                            None => None,
                            Some((y, p)) => Some(((window_type, title, width, height, x, y), p)),
                        },
                    },
                },
            },
        },
    }
}

/// Reads the nine capability flags at `p`.
#[verifier::rlimit(100)]
fn read_flags(b: &Vec<u8>, p: usize) -> (r: Option<
    ((bool, bool, bool, bool, bool, bool, bool, bool, bool), usize),
>)
    ensures
        match r {
            Some((f, q)) => parse_flags(b@, p as int) == Some((f, q as int)) && q <= b@.len(),
            None => parse_flags(b@, p as int) is None,
        },
{
    proof {
        reveal(parse_flags);
    }
    let r1 = read_bool(b, p);
    match r1 {
        None => None,
        Some((f0, p)) => match read_bool(b, p) {
            None => None,
            Some((f1, p)) => match read_bool(b, p) {
                None => None,
                Some((f2, p)) => match read_bool(b, p) {
                    None => None,
                    Some((f3, p)) => match read_bool(b, p) {
                        None => None,
                        Some((f4, p)) => match read_bool(b, p) {
                            None => None,
                            Some((f5, p)) => match read_bool(b, p) {
                                None => None,
                                Some((f6, p)) => match read_bool(b, p) {
                                    None => None,
                                    Some((f7, p)) => match read_bool(b, p) {
                                        None => None,
                                        Some((f8, p)) => Some(
                                            ((f0, f1, f2, f3, f4, f5, f6, f7, f8), p),
                                        ),
                                    },
                                },
                            },
                        },
                    },
                },
            },
        },
    }
}

/// Reads the window configuration at `p`.
#[verifier::rlimit(100)]
fn read_config(b: &Vec<u8>, p: usize) -> (r: Option<(crate::registry::WindowConfig, usize)>)
    ensures
        match r {
            Some((c, q)) => parse_config(b@, p as int) == Some((c@, q as int)) && q <= b@.len(),
            None => parse_config(b@, p as int) is None,
        },
{
    proof {
        reveal(parse_config);
    }
    match read_geom(b, p) {
        None => None,
        Some((g, p)) => match read_flags(b, p) {
            None => None,
            Some((f, p)) => match read_opt_str(b, p) {
                None => None,
                Some((url, p)) => Some(
                    (
                        crate::registry::WindowConfig {
                            window_type: g.0,
                            title: g.1,
                            width: g.2,
                            height: g.3,
                            x: g.4,
                            y: g.5,
                            resizable: f.0,
                            minimizable: f.1,
                            maximizable: f.2,
                            closable: f.3,
                            always_on_top: f.4,
                            decorations: f.5,
                            transparent: f.6,
                            focus: f.7,
                            fullscreen: f.8,
                            url,
                        },
                        p,
                    ),
                ),
            },
        },
    }
}

/// Reads the three presentation flags at `p`.
fn read_state_flags(b: &Vec<u8>, p: usize) -> (r: Option<((bool, bool, bool), usize)>)
    ensures
        match r {
            Some((f, q)) => parse_state_flags(b@, p as int) == Some((f, q as int)) && q
                <= b@.len(),
            None => parse_state_flags(b@, p as int) is None,
        },
{
    match read_bool(b, p) {
        None => None,
        Some((f0, p)) => match read_bool(b, p) {
            None => None,
            Some((f1, p)) => match read_bool(b, p) {
                None => None,
                Some((f2, p)) => Some(((f0, f1, f2), p)),
            },
        },
    }
}

/// Reads the window record at `p`.
#[verifier::rlimit(100)]
fn read_state(b: &Vec<u8>, p: usize) -> (r: Option<(crate::registry::WindowState, usize)>)
    ensures
        match r {
            Some((w, q)) => parse_state(b@, p as int) == Some((w@, q as int)) && q <= b@.len(),
            None => parse_state(b@, p as int) is None,
        },
{
    proof {
        reveal(parse_state);
    }
    match read_str(b, p) {
        None => None,
        Some((label, p)) => match read_config(b, p) {
            None => None,
            Some((config, p)) => match read_u32(b, p) {
                None => None,
                Some((z_order, p)) => match read_state_flags(b, p) {
                    None => None,
                    Some((f, p)) => match read_opt_str(b, p) {
                        None => None,
                        Some((monitor_id, p)) => match read_u64(b, p) {
                            None => None,
                            Some((created_at, p)) => match read_u64(b, p) {
                                None => None,
                                Some((last_focused_at, p)) => Some(
                                    (
                                        crate::registry::WindowState {
                                            label,
                                            config,
                                            z_order,
                                            is_focused: f.0,
                                            is_minimized: f.1,
                                            is_maximized: f.2,
                                            monitor_id,
                                            created_at,
                                            last_focused_at,
                                        },
                                        p,
                                    ),
                                ),
                            },
                        },
                    },
                },
            },
        },
    }
}

/// Parses a saved layout back into its ordered sequence of window records.
/// Succeeds exactly on the complete, well-formed encodings described by
/// `parse_layout` — on exactly the outputs of `serialize_layout` and
/// nothing trailing them — and returns the records with every field as
/// saved. Any other input is rejected whole with a format error.
#[verifier::rlimit(100)]
pub fn deserialize_layout(bytes: &Vec<u8>) -> (r: Result<
    Vec<crate::registry::WindowState>,
    PersistenceFormatError,
>)
    ensures
        match r {
            Ok(v) => parse_layout(bytes@) == Some(crate::registry::views_of(v@)),
            Err(_) => parse_layout(bytes@) is None,
        },
{
    if bytes.len() < 3 {
        return Err(PersistenceFormatError {});
    }
    if !(bytes[0] == 87u8 && bytes[1] == 76u8 && bytes[2] == 1u8) {
        return Err(PersistenceFormatError {});
    }
    match read_u64(bytes, 3) {
        None => Err(PersistenceFormatError {}),
        Some((n, p0)) => {
            let mut acc: Vec<crate::registry::WindowState> = Vec::new();
            let mut pos = p0;
            let mut k: u64 = 0;
            while k < n
                invariant
                    bytes@.len() >= 3,
                    bytes@[0] == 87u8 && bytes@[1] == 76u8 && bytes@[2] == 1u8,
                    parse_u64(bytes@, 3) == Some((n, p0 as int)),
                    k <= n,
                    pos <= bytes@.len(),
                    parse_states(bytes@, p0 as int, n as nat) == (match parse_states(
                        bytes@,
                        pos as int,
                        (n - k) as nat,
                    ) {
                        Some((t, r2)) => Some((crate::registry::views_of(acc@) + t, r2)),
                        None => None::<(Seq<crate::registry::WindowStateView>, int)>,
                    }),
                decreases n - k,
            {
                match read_state(bytes, pos) {
                    None => {
                        return Err(PersistenceFormatError {});
                    },
                    Some((w, q)) => {
                        let ghost acc_old = crate::registry::views_of(acc@);
                        let ghost wv = w@;
                        acc.push(w);
                        proof {
                            assert(crate::registry::views_of(acc@) =~= acc_old.push(wv));
                            let old_rem = parse_states(bytes@, pos as int, (n - k) as nat);
                            let new_rem = parse_states(bytes@, q as int, (n - k - 1) as nat);
                            match new_rem {
                                None => {
                                    assert(old_rem is None);
                                },
                                Some((t, r2)) => {
                                    assert(old_rem == Some((seq![wv] + t, r2)));
                                    assert(acc_old + (seq![wv] + t) =~= acc_old.push(wv) + t);
                                },
                            }
                        }
                        pos = q;
                        k = k + 1;
                    },
                }
            }
            proof {
                assert(parse_states(bytes@, pos as int, (n - k) as nat) == Some(
                    (Seq::<crate::registry::WindowStateView>::empty(), pos as int),
                ));
                assert(crate::registry::views_of(acc@) + Seq::<
                    crate::registry::WindowStateView,
                >::empty() =~= crate::registry::views_of(acc@));
            }
            if pos == bytes.len() {
                Ok(acc)
            } else {
                Err(PersistenceFormatError {})
            }
        },
    }
}

} // verus!
