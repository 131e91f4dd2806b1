//! The wire format of the queue payloads: a JSON object format, defined
//! here byte by byte.
//!
//! Every payload is a UTF-8 JSON object whose members appear in a fixed
//! order.  Strings escape `"`, `\` and the control bytes (the short forms
//! `\b \t \n \f \r` and `\u00XX` for the rest); integers are decimal with
//! an optional sign and at most eighteen digits; an optional member holds
//! `null` when absent.  Whitespace is allowed between tokens when parsing.
//! The printers below define the canonical (whitespace-free) form, the
//! parsers accept it and prove the round trip.

use vstd::prelude::*;
use vstd::utf8::{decode_utf8, encode_utf8, valid_utf8};
use crate::messages::{CreateHive, DeleteSensor};
use crate::types::{ReadingV, Sensor, SensorReading, SensorV};

verus! {

// ---------------------------------------------------------------------
// Byte classes
// ---------------------------------------------------------------------
/// JSON whitespace: space, tab, line feed, carriage return.
pub open spec fn is_ws(b: u8) -> bool {
    b == 32 || b == 9 || b == 10 || b == 13
}

/// An ASCII decimal digit.
pub open spec fn is_digit(b: u8) -> bool {
    48 <= b <= 57
}

/// The lowercase hex digit for a value below sixteen.
pub open spec fn hex_digit(n: u8) -> u8 {
    if n < 10 {
        (48 + n) as u8
    } else {
        (87 + n) as u8
    }
}

// ---------------------------------------------------------------------
// Printers: the canonical byte form of each fragment
// ---------------------------------------------------------------------
/// The decimal digits of a natural number, most significant first.
pub open spec fn dec_digits(n: nat) -> Seq<u8>
    decreases n,
{
    if n < 10 {
        seq![(48 + n) as u8]
    } else {
        dec_digits(n / 10).push((48 + (n % 10)) as u8)
    }
}

/// The canonical byte form of an integer.
pub open spec fn int_json(i: int) -> Seq<u8> {
    if i < 0 {
        seq![45u8] + dec_digits((-i) as nat)
    } else {
        dec_digits(i as nat)
    }
}

/// How one string byte is written: quote and backslash get a backslash,
/// the common control bytes their short escape, the rest of the control
/// bytes a `\u00XX` escape, and every other byte stands as itself.
pub open spec fn escape_byte(b: u8) -> Seq<u8> {
    if b == 34 {
        seq![92u8, 34u8]
    } else if b == 92 {
        seq![92u8, 92u8]
    } else if b == 8 {
        seq![92u8, 98u8]
    } else if b == 9 {
        seq![92u8, 116u8]
    } else if b == 10 {
        seq![92u8, 110u8]
    } else if b == 12 {
        seq![92u8, 102u8]
    } else if b == 13 {
        seq![92u8, 114u8]
    } else if b < 32 {
        seq![92u8, 117u8, 48u8, 48u8, hex_digit(b / 16), hex_digit(b % 16)]
    } else {
        seq![b]
    }
}

/// The escaped form of a whole string body.
pub open spec fn escape_bytes(s: Seq<u8>) -> Seq<u8>
    decreases s.len(),
{
    if s.len() == 0 {
        Seq::empty()
    } else {
        escape_byte(s[0]) + escape_bytes(s.drop_first())
    }
}

/// A JSON string: the escaped body between quotes.
pub open spec fn str_json(s: Seq<u8>) -> Seq<u8> {
    seq![34u8] + escape_bytes(s) + seq![34u8]
}

/// The literal `null`.
pub open spec fn null_json() -> Seq<u8> {
    seq![110u8, 117u8, 108u8, 108u8]
}

/// An optional integer: its digits, or `null`.
pub open spec fn opt_int_json(v: Option<int>) -> Seq<u8> {
    match v {
        Option::Some(i) => int_json(i),
        Option::None => null_json(),
    }
}

/// An optional string: a JSON string, or `null`.
pub open spec fn opt_str_json(v: Option<Seq<u8>>) -> Seq<u8> {
    match v {
        Option::Some(s) => str_json(s),
        Option::None => null_json(),
    }
}

// ---------------------------------------------------------------------
// Object member keys
// ---------------------------------------------------------------------
/// The member keys that appear in the payloads.
#[derive(Debug, Clone, Copy, PartialEq, Eq, Structural)]
pub enum JsonKey {
    ReadingId,
    SensorId,
    Value,
    Timestamp,
    HiveId,
    Sensors,
    SensorType,
    LastReading,
    LastReadingTime,
}

/// The name bytes of a member key.
pub open spec fn key_name(k: JsonKey) -> Seq<u8> {
    match k {
        // "reading_id"
        JsonKey::ReadingId => seq![114u8, 101u8, 97u8, 100u8, 105u8, 110u8, 103u8, 95u8, 105u8, 100u8],
        // "sensor_id"
        JsonKey::SensorId => seq![115u8, 101u8, 110u8, 115u8, 111u8, 114u8, 95u8, 105u8, 100u8],
        // "value"
        JsonKey::Value => seq![118u8, 97u8, 108u8, 117u8, 101u8],
        // "timestamp"
        JsonKey::Timestamp => seq![116u8, 105u8, 109u8, 101u8, 115u8, 116u8, 97u8, 109u8, 112u8],
        // "hive_id"
        JsonKey::HiveId => seq![104u8, 105u8, 118u8, 101u8, 95u8, 105u8, 100u8],
        // "sensors"
        JsonKey::Sensors => seq![115u8, 101u8, 110u8, 115u8, 111u8, 114u8, 115u8],
        // "sensor_type"
        JsonKey::SensorType => seq![115u8, 101u8, 110u8, 115u8, 111u8, 114u8, 95u8, 116u8, 121u8, 112u8, 101u8],
        // "last_reading"
        JsonKey::LastReading => seq![108u8, 97u8, 115u8, 116u8, 95u8, 114u8, 101u8, 97u8, 100u8, 105u8, 110u8, 103u8],
        // "last_reading_time"
        JsonKey::LastReadingTime => seq![
            108u8,
            97u8,
            115u8,
            116u8,
            95u8,
            114u8,
            101u8,
            97u8,
            100u8,
            105u8,
            110u8,
            103u8,
            95u8,
            116u8,
            105u8,
            109u8,
            101u8,
        ],
    }
}

/// A key as printed: the quoted name followed by a colon.
pub open spec fn key_json(k: JsonKey) -> Seq<u8> {
    seq![34u8] + key_name(k) + seq![34u8, 58u8]
}

/// The canonical payload of one sensor reading.
pub open spec fn reading_json(r: ReadingV) -> Seq<u8> {
    seq![123u8] + key_json(JsonKey::ReadingId) + opt_int_json(r.reading_id) + seq![44u8] + key_json(
        JsonKey::SensorId,
    ) + int_json(r.sensor_id) + seq![44u8] + key_json(JsonKey::Value) + str_json(
        encode_utf8(r.value),
    ) + seq![44u8] + key_json(JsonKey::Timestamp) + opt_str_json(
        match r.timestamp {
            Option::Some(t) => Option::Some(encode_utf8(t)),
            Option::None => Option::None,
        },
    ) + seq![125u8]
}

// ---------------------------------------------------------------------
// Executable encoding
// ---------------------------------------------------------------------
/// The name bytes of a member key, as data.
fn key_name_bytes(k: JsonKey) -> (v: Vec<u8>)
    ensures
        v@ == key_name(k),
{
    let mut v: Vec<u8> = Vec::new();
    match k {
        JsonKey::ReadingId => {
            v.push(114);
            v.push(101);
            v.push(97);
            v.push(100);
            v.push(105);
            v.push(110);
            v.push(103);
            v.push(95);
            v.push(105);
            v.push(100);
        },
        JsonKey::SensorId => {
            v.push(115);
            v.push(101);
            v.push(110);
            v.push(115);
            v.push(111);
            v.push(114);
            v.push(95);
            v.push(105);
            v.push(100);
        },
        JsonKey::Value => {
            v.push(118);
            v.push(97);
            v.push(108);
            v.push(117);
            v.push(101);
        },
        JsonKey::Timestamp => {
            v.push(116);
            v.push(105);
            v.push(109);
            v.push(101);
            v.push(115);
            v.push(116);
            v.push(97);
            v.push(109);
            v.push(112);
        },
        JsonKey::HiveId => {
            v.push(104);
            v.push(105);
            v.push(118);
            v.push(101);
            v.push(95);
            v.push(105);
            v.push(100);
        },
        JsonKey::Sensors => {
            v.push(115);
            v.push(101);
            v.push(110);
            v.push(115);
            v.push(111);
            v.push(114);
            v.push(115);
        },
        JsonKey::SensorType => {
            v.push(115);
            v.push(101);
            v.push(110);
            v.push(115);
            v.push(111);
            v.push(114);
            v.push(95);
            v.push(116);
            v.push(121);
            v.push(112);
            v.push(101);
        },
        JsonKey::LastReading => {
            v.push(108);
            v.push(97);
            v.push(115);
            v.push(116);
            v.push(95);
            v.push(114);
            v.push(101);
            v.push(97);
            v.push(100);
            v.push(105);
            v.push(110);
            v.push(103);
        },
        JsonKey::LastReadingTime => {
            v.push(108);
            v.push(97);
            v.push(115);
            v.push(116);
            v.push(95);
            v.push(114);
            v.push(101);
            v.push(97);
            v.push(100);
            v.push(105);
            v.push(110);
            v.push(103);
            v.push(95);
            v.push(116);
            v.push(105);
            v.push(109);
            v.push(101);
        },
    }
    proof {
        assert(v@ =~= key_name(k));
    }
    v
}

/// Appends one printed key.
fn push_key(out: &mut Vec<u8>, k: JsonKey)
    ensures
        final(out)@ == old(out)@ + key_json(k),
{
    out.push(34);
    let name = key_name_bytes(k);
    let mut i: usize = 0;
    while i < name.len()
        invariant
            i <= name@.len(),
            out@ == old(out)@.push(34u8) + name@.take(i as int),
        decreases name@.len() - i,
    {
        proof {
            assert(out@.push(name@[i as int]) =~= old(out)@.push(34u8) + name@.take(i + 1));
        }
        out.push(name[i]);
        i = i + 1;
    }
    out.push(34);
    out.push(58);
    proof {
        assert(name@.take(name@.len() as int) =~= name@);
        assert(out@ =~= old(out)@ + key_json(k));
    }
}

/// Appends the digits of a natural number below `10^18`.
fn push_digits(out: &mut Vec<u8>, n: u64)
    ensures
        final(out)@ == old(out)@ + dec_digits(n as nat),
    decreases n,
{
    if n < 10 {
        out.push((48 + n) as u8);
        proof {
            assert(out@ =~= old(out)@ + dec_digits(n as nat));
        }
    } else {
        push_digits(out, n / 10);
        out.push((48 + (n % 10)) as u8);
        proof {
            assert(out@ =~= old(out)@ + dec_digits(n as nat));
        }
    }
}

/// Appends the canonical form of an integer.
fn push_i32(out: &mut Vec<u8>, v: i32)
    ensures
        final(out)@ == old(out)@ + int_json(v as int),
{
    if v < 0 {
        out.push(45);
        let m: u64 = (-(v as i64)) as u64;
        push_digits(out, m);
        proof {
            assert(out@ =~= old(out)@ + int_json(v as int));
        }
    } else {
        push_digits(out, v as u64);
    }
}

/// Appends `null`.
fn push_null(out: &mut Vec<u8>)
    ensures
        final(out)@ == old(out)@ + null_json(),
{
    out.push(110);
    out.push(117);
    out.push(108);
    out.push(108);
    proof {
        assert(out@ =~= old(out)@ + null_json());
    }
}

/// The escaped form grows by one byte's escape at a time.
proof fn lemma_escape_snoc(s: Seq<u8>, b: u8)
    ensures
        escape_bytes(s.push(b)) == escape_bytes(s) + escape_byte(b),
    decreases s.len(),
{
    if s.len() == 0 {
        reveal_with_fuel(escape_bytes, 3);
        assert(s.push(b)[0] == b);
        assert(s.push(b).drop_first() =~= Seq::<u8>::empty());
        assert(escape_bytes(s.push(b)) =~= escape_bytes(s) + escape_byte(b));
    } else {
        assert(s.push(b).drop_first() =~= s.drop_first().push(b));
        lemma_escape_snoc(s.drop_first(), b);
        assert(s.push(b)[0] == s[0]);
        assert(escape_bytes(s.push(b)) == escape_byte(s[0]) + (escape_bytes(s.drop_first())
            + escape_byte(b)));
        assert(escape_byte(s[0]) + (escape_bytes(s.drop_first()) + escape_byte(b)) =~= (escape_byte(
            s[0],
        ) + escape_bytes(s.drop_first())) + escape_byte(b));
    }
}

/// Appends a JSON string holding the UTF-8 bytes of `s`.
fn push_str_json(out: &mut Vec<u8>, s: &str)
    ensures
        final(out)@ == old(out)@ + str_json(encode_utf8(s@)),
{
    out.push(34);
    let bytes = s.as_bytes();
    let ghost b = bytes@;
    let mut i: usize = 0;
    while i < bytes.len()
        invariant
            i <= b.len(),
            bytes@ == b,
            out@ == old(out)@.push(34u8) + escape_bytes(b.take(i as int)),
        decreases b.len() - i,
    {
        let c = bytes[i];
        proof {
            assert(b.take(i + 1) =~= b.take(i as int).push(c));
            lemma_escape_snoc(b.take(i as int), c);
        }
        if c == 34 {
            out.push(92);
            out.push(34);
        } else if c == 92 {
            out.push(92);
            out.push(92);
        } else if c == 8 {
            out.push(92);
            out.push(98);
        } else if c == 9 {
            out.push(92);
            out.push(116);
        } else if c == 10 {
            out.push(92);
            out.push(110);
        } else if c == 12 {
            out.push(92);
            out.push(102);
        } else if c == 13 {
            out.push(92);
            out.push(114);
        } else if c < 32 {
            out.push(92);
            out.push(117);
            out.push(48);
            out.push(48);
            let hi = c / 16;
            let lo = c % 16;
            out.push(if hi < 10 { 48 + hi } else { 87 + hi });
            out.push(if lo < 10 { 48 + lo } else { 87 + lo });
        } else {
            out.push(c);
        }
        proof {
            assert(out@ =~= old(out)@.push(34u8) + escape_bytes(b.take(i + 1)));
        }
        i = i + 1;
    }
    out.push(34);
    proof {
        assert(b.take(b.len() as int) =~= b);
        assert(out@ =~= old(out)@ + str_json(encode_utf8(s@)));
    }
}

/// Encodes one sensor reading into its canonical payload.
pub fn encode_reading(r: &crate::types::SensorReading) -> (out: Vec<u8>)
    ensures
        out@ == reading_json(r@),
{
    let mut out: Vec<u8> = Vec::new();
    out.push(123);
    proof {
        assert(out@ =~= Seq::<u8>::empty() + seq![123u8]);
    }
    push_key(&mut out, JsonKey::ReadingId);
    match r.reading_id {
        Some(id) => push_i32(&mut out, id),
        None => push_null(&mut out),
    }
    out.push(44);
    push_key(&mut out, JsonKey::SensorId);
    push_i32(&mut out, r.sensor_id);
    out.push(44);
    push_key(&mut out, JsonKey::Value);
    push_str_json(&mut out, r.value.as_str());
    out.push(44);
    push_key(&mut out, JsonKey::Timestamp);
    match &r.timestamp {
        Some(t) => push_str_json(&mut out, t.as_str()),
        None => push_null(&mut out),
    }
    out.push(125);
    proof {
        assert(out@ =~= reading_json(r@));
    }
    out
}

// ---------------------------------------------------------------------
// Parsers: what each fragment means, starting at a position
// ---------------------------------------------------------------------
/// The value of a hex digit byte, either case.
pub open spec fn hex_val(b: u8) -> Option<u8> {
    if 48 <= b <= 57 {
        Option::Some((b - 48) as u8)
    } else if 97 <= b <= 102 {
        Option::Some((b - 87) as u8)
    } else if 65 <= b <= 70 {
        Option::Some((b - 55) as u8)
    } else {
        Option::None
    }
}

/// The first position at or after `i` that holds no whitespace.
pub open spec fn sp_ws(s: Seq<u8>, i: int) -> int
    decreases s.len() - i,
{
    if 0 <= i < s.len() && is_ws(s[i]) {
        sp_ws(s, i + 1)
    } else {
        i
    }
}

/// Digits accumulate left to right; at most eighteen are accepted.
pub open spec fn sp_digits(s: Seq<u8>, i: int, acc: int, count: int) -> Option<(int, int)>
    decreases s.len() - i,
{
    if 0 <= i < s.len() && is_digit(s[i]) {
        if count >= 18 {
            Option::None
        } else {
            sp_digits(s, i + 1, acc * 10 + (s[i] - 48), count + 1)
        }
    } else if count == 0 {
        Option::None
    } else {
        Option::Some((acc, i))
    }
}

/// An integer: an optional minus sign and one to eighteen digits.
pub open spec fn sp_int(s: Seq<u8>, i: int) -> Option<(int, int)> {
    if 0 <= i < s.len() && s[i] == 45 {
        match sp_digits(s, i + 1, 0, 0) {
            Option::Some((v, j)) => Option::Some((-v, j)),
            Option::None => Option::None,
        }
    } else {
        sp_digits(s, i, 0, 0)
    }
}

/// A string body after its opening quote: the unescaped content and the
/// position after the closing quote.  `\uXXXX` is accepted for values
/// below `0x80`; raw control bytes are refused.
pub open spec fn sp_str_body(s: Seq<u8>, i: int, acc: Seq<u8>) -> Option<(Seq<u8>, int)>
    decreases s.len() - i,
{
    if !(0 <= i < s.len()) {
        Option::None
    } else if s[i] == 34 {
        Option::Some((acc, i + 1))
    } else if s[i] == 92 {
        if i + 1 < s.len() {
            let e = s[i + 1];
            if e == 34 {
                sp_str_body(s, i + 2, acc.push(34))
            } else if e == 92 {
                sp_str_body(s, i + 2, acc.push(92))
            } else if e == 47 {
                sp_str_body(s, i + 2, acc.push(47))
            } else if e == 98 {
                sp_str_body(s, i + 2, acc.push(8))
            } else if e == 116 {
                sp_str_body(s, i + 2, acc.push(9))
            } else if e == 110 {
                sp_str_body(s, i + 2, acc.push(10))
            } else if e == 102 {
                sp_str_body(s, i + 2, acc.push(12))
            } else if e == 114 {
                sp_str_body(s, i + 2, acc.push(13))
            } else if e == 117 {
                if i + 5 < s.len() {
                    match (hex_val(s[i + 2]), hex_val(s[i + 3]), hex_val(s[i + 4]), hex_val(
                        s[i + 5],
                    )) {
                        (
                            Option::Some(h0),
                            Option::Some(h1),
                            Option::Some(h2),
                            Option::Some(h3),
                        ) => {
                            let v = h0 * 4096 + h1 * 256 + h2 * 16 + h3;
                            if v < 128 {
                                sp_str_body(s, i + 6, acc.push(v as u8))
                            } else {
                                Option::None
                            }
                        },
                        _ => Option::None,
                    }
                } else {
                    Option::None
                }
            } else {
                Option::None
            }
        } else {
            Option::None
        }
    } else if s[i] < 32 {
        Option::None
    } else {
        sp_str_body(s, i + 1, acc.push(s[i]))
    }
}

/// A quoted string starting at `i`.
pub open spec fn sp_string(s: Seq<u8>, i: int) -> Option<(Seq<u8>, int)> {
    if 0 <= i < s.len() && s[i] == 34 {
        sp_str_body(s, i + 1, Seq::empty())
    } else {
        Option::None
    }
}

/// An exact literal starting at `i`.
pub open spec fn sp_lit(s: Seq<u8>, i: int, lit: Seq<u8>) -> Option<int> {
    if 0 <= i && i + lit.len() <= s.len() && s.subrange(i, i + lit.len() as int) == lit {
        Option::Some(i + lit.len() as int)
    } else {
        Option::None
    }
}

/// Whitespace, then one expected byte.
pub open spec fn sp_sep(s: Seq<u8>, i: int, b: u8) -> Option<int> {
    let j = sp_ws(s, i);
    if 0 <= j < s.len() && s[j] == b {
        Option::Some(j + 1)
    } else {
        Option::None
    }
}

/// Whitespace, a quoted member key, whitespace, a colon, whitespace;
/// yields the position of the member's value.
pub open spec fn sp_key(s: Seq<u8>, i: int, k: JsonKey) -> Option<int> {
    let j = sp_ws(s, i);
    match sp_lit(s, j, seq![34u8] + key_name(k) + seq![34u8]) {
        Option::Some(j2) => {
            let j3 = sp_ws(s, j2);
            if 0 <= j3 < s.len() && s[j3] == 58 {
                Option::Some(sp_ws(s, j3 + 1))
            } else {
                Option::None
            }
        },
        Option::None => Option::None,
    }
}

/// An integer or `null`.
pub open spec fn sp_opt_int(s: Seq<u8>, i: int) -> Option<(Option<int>, int)> {
    match sp_lit(s, i, null_json()) {
        Option::Some(j) => Option::Some((Option::None, j)),
        Option::None => match sp_int(s, i) {
            Option::Some((v, j)) => Option::Some((Option::Some(v), j)),
            Option::None => Option::None,
        },
    }
}

/// A string or `null`.
pub open spec fn sp_opt_str(s: Seq<u8>, i: int) -> Option<(Option<Seq<u8>>, int)> {
    match sp_lit(s, i, null_json()) {
        Option::Some(j) => Option::Some((Option::None, j)),
        Option::None => match sp_string(s, i) {
            Option::Some((v, j)) => Option::Some((Option::Some(v), j)),
            Option::None => Option::None,
        },
    }
}

/// A parsed sensor reading, before UTF-8 decoding of its strings.
pub struct ReadingB {
    pub reading_id: Option<int>,
    pub sensor_id: int,
    pub value: Seq<u8>,
    pub timestamp: Option<Seq<u8>>,
}

/// A parsed sensor, before UTF-8 decoding of its strings.
pub struct SensorB {
    pub sensor_id: int,
    pub hive_id: int,
    pub sensor_type: Seq<u8>,
    pub last_reading: Seq<u8>,
    pub last_reading_time: Option<Seq<u8>>,
}

/// A whole reading payload.
pub open spec fn sp_reading(s: Seq<u8>) -> Option<ReadingB> {
    match sp_sep(s, 0, 123) {
        Option::Some(i1) => match sp_key(s, i1, JsonKey::ReadingId) {
            Option::Some(i2) => match sp_opt_int(s, i2) {
                Option::Some((rid, i3)) => match sp_sep(s, i3, 44) {
                    Option::Some(i4) => match sp_key(s, i4, JsonKey::SensorId) {
                        Option::Some(i5) => match sp_int(s, i5) {
                            Option::Some((sid, i6)) => match sp_sep(s, i6, 44) {
                                Option::Some(i7) => match sp_key(s, i7, JsonKey::Value) {
                                    Option::Some(i8) => match sp_string(s, i8) {
                                        Option::Some((val, i9)) => match sp_sep(s, i9, 44) {
                                            Option::Some(i10) => match sp_key(
                                                s,
                                                i10,
                                                JsonKey::Timestamp,
                                            ) {
                                                Option::Some(i11) => match sp_opt_str(s, i11) {
                                                    Option::Some((ts, i12)) => match sp_sep(
                                                        s,
                                                        i12,
                                                        125,
                                                    ) {
                                                        Option::Some(i13) => if sp_ws(s, i13)
                                                            == s.len() {
                                                            Option::Some(
                                                                ReadingB {
                                                                    reading_id: rid,
                                                                    sensor_id: sid,
                                                                    value: val,
                                                                    timestamp: ts,
                                                                },
                                                            )
                                                        } else {
                                                            Option::None
                                                        },
                                                        Option::None => Option::None,
                                                    },
                                                    Option::None => Option::None,
                                                },
                                                Option::None => Option::None,
                                            },
                                            Option::None => Option::None,
                                        },
                                        Option::None => Option::None,
                                    },
                                    Option::None => Option::None,
                                },
                                Option::None => Option::None,
                            },
                            Option::None => Option::None,
                        },
                        Option::None => Option::None,
                    },
                    Option::None => Option::None,
                },
                Option::None => Option::None,
            },
            Option::None => Option::None,
        },
        Option::None => Option::None,
    }
}

/// One sensor object starting at `i`; yields the sensor and the position
/// after its closing brace.
pub open spec fn sp_sensor_obj(s: Seq<u8>, i: int) -> Option<(SensorB, int)> {
    match sp_sep(s, i, 123) {
        Option::Some(i1) => match sp_key(s, i1, JsonKey::SensorId) {
            Option::Some(i2) => match sp_int(s, i2) {
                Option::Some((sid, i3)) => match sp_sep(s, i3, 44) {
                    Option::Some(i4) => match sp_key(s, i4, JsonKey::HiveId) {
                        Option::Some(i5) => match sp_int(s, i5) {
                            Option::Some((hid, i6)) => match sp_sep(s, i6, 44) {
                                Option::Some(i7) => match sp_key(s, i7, JsonKey::SensorType) {
                                    Option::Some(i8) => match sp_string(s, i8) {
                                        Option::Some((ty, i9)) => match sp_sep(s, i9, 44) {
                                            Option::Some(i10) => match sp_key(
                                                s,
                                                i10,
                                                JsonKey::LastReading,
                                            ) {
                                                Option::Some(i11) => match sp_string(s, i11) {
                                                    Option::Some((lr, i12)) => match sp_sep(
                                                        s,
                                                        i12,
                                                        44,
                                                    ) {
                                                        Option::Some(i13) => match sp_key(
                                                            s,
                                                            i13,
                                                            JsonKey::LastReadingTime,
                                                        ) {
                                                            Option::Some(i14) => match sp_opt_str(
                                                                s,
                                                                i14,
                                                            ) {
                                                                Option::Some(
                                                                    (lrt, i15),
                                                                ) => match sp_sep(s, i15, 125) {
                                                                    Option::Some(
                                                                        i16,
                                                                    ) => Option::Some(
                                                                        (
                                                                            SensorB {
                                                                                sensor_id: sid,
                                                                                hive_id: hid,
                                                                                sensor_type: ty,
                                                                                last_reading: lr,
                                                                                last_reading_time:
                                                                                    lrt,
                                                                            },
                                                                            i16,
                                                                        ),
                                                                    ),
                                                                    Option::None => Option::None,
                                                                },
                                                                Option::None => Option::None,
                                                            },
                                                            Option::None => Option::None,
                                                        },
                                                        Option::None => Option::None,
                                                    },
                                                    Option::None => Option::None,
                                                },
                                                Option::None => Option::None,
                                            },
                                            Option::None => Option::None,
                                        },
                                        Option::None => Option::None,
                                    },
                                    Option::None => Option::None,
                                },
                                Option::None => Option::None,
                            },
                            Option::None => Option::None,
                        },
                        Option::None => Option::None,
                    },
                    Option::None => Option::None,
                },
                Option::None => Option::None,
            },
            Option::None => Option::None,
        },
        Option::None => Option::None,
    }
}

/// The members of a non-empty sensor array, separated by commas and ended
/// by a closing bracket.
pub open spec fn sp_sensor_items(s: Seq<u8>, i: int, acc: Seq<SensorB>) -> Option<
    (Seq<SensorB>, int),
>
    decreases s.len() - i,
{
    match sp_sensor_obj(s, i) {
        Option::Some((sen, j)) => {
            let j2 = sp_ws(s, j);
            if 0 <= j2 < s.len() && s[j2] == 44 {
                if i < j2 + 1 <= s.len() {
                    sp_sensor_items(s, j2 + 1, acc.push(sen))
                } else {
                    Option::None
                }
            } else if 0 <= j2 < s.len() && s[j2] == 93 {
                Option::Some((acc.push(sen), j2 + 1))
            } else {
                Option::None
            }
        },
        Option::None => Option::None,
    }
}

/// A sensor array starting at `i`.
pub open spec fn sp_sensor_array(s: Seq<u8>, i: int) -> Option<(Seq<SensorB>, int)> {
    match sp_sep(s, i, 91) {
        Option::Some(j) => {
            let j2 = sp_ws(s, j);
            if 0 <= j2 < s.len() && s[j2] == 93 {
                Option::Some((Seq::empty(), j2 + 1))
            } else {
                sp_sensor_items(s, j, Seq::empty())
            }
        },
        Option::None => Option::None,
    }
}

/// A parsed hive-creation request, before UTF-8 decoding.
pub struct CreateHiveB {
    pub hive_id: int,
    pub sensors: Seq<SensorB>,
}

/// A whole hive-creation payload.
pub open spec fn sp_create_hive(s: Seq<u8>) -> Option<CreateHiveB> {
    match sp_sep(s, 0, 123) {
        Option::Some(i1) => match sp_key(s, i1, JsonKey::HiveId) {
            Option::Some(i2) => match sp_int(s, i2) {
                Option::Some((hid, i3)) => match sp_sep(s, i3, 44) {
                    Option::Some(i4) => match sp_key(s, i4, JsonKey::Sensors) {
                        Option::Some(i5) => match sp_sensor_array(s, i5) {
                            Option::Some((sens, i6)) => match sp_sep(s, i6, 125) {
                                Option::Some(i7) => if sp_ws(s, i7) == s.len() {
                                    Option::Some(CreateHiveB { hive_id: hid, sensors: sens })
                                } else {
                                    Option::None
                                },
                                Option::None => Option::None,
                            },
                            Option::None => Option::None,
                        },
                        Option::None => Option::None,
                    },
                    Option::None => Option::None,
                },
                Option::None => Option::None,
            },
            Option::None => Option::None,
        },
        Option::None => Option::None,
    }
}

/// A whole sensor payload.
pub open spec fn sp_sensor(s: Seq<u8>) -> Option<SensorB> {
    match sp_sensor_obj(s, 0) {
        Option::Some((b, j)) => if sp_ws(s, j) == s.len() {
            Option::Some(b)
        } else {
            Option::None
        },
        Option::None => Option::None,
    }
}

/// A whole delete payload.
pub open spec fn sp_delete(s: Seq<u8>) -> Option<(int, int)> {
    match sp_sep(s, 0, 123) {
        Option::Some(i1) => match sp_key(s, i1, JsonKey::HiveId) {
            Option::Some(i2) => match sp_int(s, i2) {
                Option::Some((hid, i3)) => match sp_sep(s, i3, 44) {
                    Option::Some(i4) => match sp_key(s, i4, JsonKey::SensorId) {
                        Option::Some(i5) => match sp_int(s, i5) {
                            Option::Some((sid, i6)) => match sp_sep(s, i6, 125) {
                                Option::Some(i7) => if sp_ws(s, i7) == s.len() {
                                    Option::Some((hid, sid))
                                } else {
                                    Option::None
                                },
                                Option::None => Option::None,
                            },
                            Option::None => Option::None,
                        },
                        Option::None => Option::None,
                    },
                    Option::None => Option::None,
                },
                Option::None => Option::None,
            },
            Option::None => Option::None,
        },
        Option::None => Option::None,
    }
}

// ---------------------------------------------------------------------
// Typed meaning: UTF-8 decoding and machine-word ranges
// ---------------------------------------------------------------------
/// Whether a parsed integer fits the payloads' 32-bit id and value fields.
pub open spec fn in_i32(v: int) -> bool {
    -0x8000_0000 <= v < 0x8000_0000
}

/// UTF-8 validity of an optional string body.
pub open spec fn opt_utf8_ok(v: Option<Seq<u8>>) -> bool {
    match v {
        Option::Some(b) => valid_utf8(b),
        Option::None => true,
    }
}

/// UTF-8 decoding of an optional string body.
pub open spec fn opt_decode(v: Option<Seq<u8>>) -> Option<Seq<char>> {
    match v {
        Option::Some(b) => Option::Some(decode_utf8(b)),
        Option::None => Option::None,
    }
}

/// Whether a parsed sensor lies in the data model: ids fit 32 bits and
/// the strings are valid UTF-8.
pub open spec fn sensor_b_ok(b: SensorB) -> bool {
    &&& in_i32(b.sensor_id)
    &&& in_i32(b.hive_id)
    &&& valid_utf8(b.sensor_type)
    &&& valid_utf8(b.last_reading)
    &&& opt_utf8_ok(b.last_reading_time)
}

/// The sensor model of a well-formed parsed sensor.
pub open spec fn sensor_b_view(b: SensorB) -> SensorV {
    SensorV {
        sensor_id: b.sensor_id,
        hive_id: b.hive_id,
        sensor_type: decode_utf8(b.sensor_type),
        last_reading: decode_utf8(b.last_reading),
        last_reading_time: opt_decode(b.last_reading_time),
    }
}

/// Whether a parsed reading lies in the data model.
pub open spec fn reading_b_ok(b: ReadingB) -> bool {
    &&& match b.reading_id {
        Option::Some(v) => in_i32(v),
        Option::None => true,
    }
    &&& in_i32(b.sensor_id)
    &&& valid_utf8(b.value)
    &&& opt_utf8_ok(b.timestamp)
}

/// The meaning of a sensor payload.
pub open spec fn spec_decode_sensor(s: Seq<u8>) -> Option<SensorV> {
    match sp_sensor(s) {
        Option::Some(b) => if sensor_b_ok(b) {
            Option::Some(sensor_b_view(b))
        } else {
            Option::None
        },
        Option::None => Option::None,
    }
}

/// The meaning of a reading payload.
pub open spec fn spec_decode_reading(s: Seq<u8>) -> Option<ReadingV> {
    match sp_reading(s) {
        Option::Some(b) => if reading_b_ok(b) {
            Option::Some(
                ReadingV {
                    reading_id: b.reading_id,
                    sensor_id: b.sensor_id,
                    value: decode_utf8(b.value),
                    timestamp: opt_decode(b.timestamp),
                },
            )
        } else {
            Option::None
        },
        Option::None => Option::None,
    }
}

/// The meaning of a delete payload.
pub open spec fn spec_decode_delete(s: Seq<u8>) -> Option<(int, int)> {
    match sp_delete(s) {
        Option::Some((hid, sid)) => if in_i32(hid) && in_i32(sid) {
            Option::Some((hid, sid))
        } else {
            Option::None
        },
        Option::None => Option::None,
    }
}

/// Whether every sensor of a parsed creation request lies in the data
/// model.
pub open spec fn create_b_ok(b: CreateHiveB) -> bool {
    &&& in_i32(b.hive_id)
    &&& forall|k: int| 0 <= k < b.sensors.len() ==> sensor_b_ok(#[trigger] b.sensors[k])
}

/// The meaning of a hive-creation payload.
pub open spec fn spec_decode_create_hive(s: Seq<u8>) -> Option<(int, Seq<SensorV>)> {
    match sp_create_hive(s) {
        Option::Some(b) => if create_b_ok(b) {
            Option::Some((b.hive_id, b.sensors.map_values(|x: SensorB| sensor_b_view(x))))
        } else {
            Option::None
        },
        Option::None => Option::None,
    }
}

// ---------------------------------------------------------------------
// Executable decoding
// ---------------------------------------------------------------------
/// Relies on String::from_utf8: it succeeds exactly on valid UTF-8 and
/// returns the string whose UTF-8 encoding is the input.
#[verifier::external_body]
fn bytes_to_string(v: Vec<u8>) -> (r: Option<String>)
    ensures
        r is Some <==> valid_utf8(v@),
        r matches Option::Some(s) ==> encode_utf8(s@) == v@,
{
    match String::from_utf8(v) {
        Ok(s) => Some(s),
        Err(_) => None,
    }
}

/// Whether a byte is JSON whitespace.
fn ws_byte(b: u8) -> (r: bool)
    ensures
        r == is_ws(b),
{
    b == 32 || b == 9 || b == 10 || b == 13
}

/// Whether a byte is a decimal digit.
fn digit_byte(b: u8) -> (r: bool)
    ensures
        r == is_digit(b),
{
    48 <= b && b <= 57
}

/// Skips whitespace.
fn skip_ws(s: &Vec<u8>, i: usize) -> (j: usize)
    requires
        i <= s@.len(),
    ensures
        j as int == sp_ws(s@, i as int),
        i <= j <= s@.len(),
{
    let mut j = i;
    while j < s.len() && ws_byte(s[j])
        invariant
            i <= j <= s@.len(),
            sp_ws(s@, i as int) == sp_ws(s@, j as int),
        decreases s@.len() - j,
    {
        j = j + 1;
    }
    j
}

/// Powers of ten, for digit-count bounds.
pub open spec fn pow10(k: nat) -> int
    decreases k,
{
    if k == 0 {
        1
    } else {
        10 * pow10((k - 1) as nat)
    }
}

/// Powers of ten are positive and grow with the exponent.
proof fn lemma_pow10_mono(a: nat, b: nat)
    requires
        a <= b,
    ensures
        1 <= pow10(a) <= pow10(b),
    decreases b,
{
    if b == 0 {
    } else if a == b {
        lemma_pow10_mono((b - 1) as nat, (b - 1) as nat);
    } else {
        lemma_pow10_mono(a, (b - 1) as nat);
    }
}

/// Eighteen digits stay below ten to the eighteenth.
proof fn lemma_pow10_18()
    ensures
        pow10(18) == 1_000_000_000_000_000_000,
{
    reveal_with_fuel(pow10, 20);
}

/// Parses an integer.
fn parse_int(s: &Vec<u8>, i: usize) -> (r: Option<(i64, usize)>)
    requires
        i <= s@.len(),
    ensures
        match r {
            Option::Some((v, j)) => sp_int(s@, i as int) == Option::Some((v as int, j as int)) && i
                <= j <= s@.len(),
            Option::None => sp_int(s@, i as int) is None,
        },
{
    let mut j = i;
    let mut neg = false;
    if j < s.len() && s[j] == 45 {
        neg = true;
        j = j + 1;
    }
    let ghost d0 = j as int;
    let mut acc: u64 = 0;
    let mut count: u64 = 0;
    proof {
        lemma_pow10_18();
    }
    while j < s.len() && digit_byte(s[j])
        invariant
            i <= s@.len(),
            d0 <= j <= s@.len(),
            neg ==> i < s@.len() && s@[i as int] == 45 && d0 == i + 1,
            !neg ==> d0 == i && !(i < s@.len() && s@[i as int] == 45),
            count <= 18,
            acc < pow10(count as nat),
            pow10(18) == 1_000_000_000_000_000_000,
            sp_digits(s@, d0, 0, 0) == sp_digits(s@, j as int, acc as int, count as int),
        decreases s@.len() - j,
    {
        if count >= 18 {
            return None;
        }
        proof {
            lemma_pow10_mono(count as nat, 17);
            lemma_pow10_mono(17, 18);
            assert(pow10((count + 1) as nat) == 10 * pow10(count as nat));
        }
        let d = s[j] - 48;
        acc = acc * 10 + (d as u64);
        count = count + 1;
        j = j + 1;
    }
    if count == 0 {
        return None;
    }
    proof {
        lemma_pow10_mono(count as nat, 18);
    }
    let v: i64 = if neg {
        -(acc as i64)
    } else {
        acc as i64
    };
    Some((v, j))
}

/// Appends a byte vector.
fn append_bytes(out: &mut Vec<u8>, src: &Vec<u8>)
    ensures
        final(out)@ == old(out)@ + src@,
{
    let mut i: usize = 0;
    while i < src.len()
        invariant
            i <= src@.len(),
            out@ == old(out)@ + src@.take(i as int),
        decreases src@.len() - i,
    {
        proof {
            assert(out@.push(src@[i as int]) =~= old(out)@ + src@.take(i + 1));
        }
        out.push(src[i]);
        i = i + 1;
    }
    proof {
        assert(src@.take(src@.len() as int) =~= src@);
    }
}

/// The bytes of `null`, as data.
fn null_bytes() -> (v: Vec<u8>)
    ensures
        v@ == null_json(),
{
    let mut v: Vec<u8> = Vec::new();
    v.push(110);
    v.push(117);
    v.push(108);
    v.push(108);
    proof {
        assert(v@ =~= null_json());
    }
    v
}

/// A quoted key name, as data.
fn key_lit_bytes(k: JsonKey) -> (v: Vec<u8>)
    ensures
        v@ == seq![34u8] + key_name(k) + seq![34u8],
{
    let mut v: Vec<u8> = Vec::new();
    v.push(34);
    let name = key_name_bytes(k);
    append_bytes(&mut v, &name);
    v.push(34);
    proof {
        assert(v@ =~= seq![34u8] + key_name(k) + seq![34u8]);
    }
    v
}

/// Matches an exact literal.
fn parse_lit(s: &Vec<u8>, i: usize, lit: &Vec<u8>) -> (r: Option<usize>)
    requires
        i <= s@.len(),
    ensures
        match r {
            Option::Some(j) => sp_lit(s@, i as int, lit@) == Option::Some(j as int) && i <= j
                <= s@.len(),
            Option::None => sp_lit(s@, i as int, lit@) is None,
        },
{
    if lit.len() > s.len() - i {
        return None;
    }
    let n = s.len();
    let mut k: usize = 0;
    while k < lit.len()
        invariant
            n == s@.len(),
            i + lit@.len() <= s@.len(),
            k <= lit@.len(),
            forall|t: int| 0 <= t < k ==> s@[i + t] == lit@[t],
        decreases lit@.len() - k,
    {
        proof {
            assert(i + k < n);
        }
        if s[i + k] != lit[k] {
            proof {
                assert(s@.subrange(i as int, i + lit@.len())[k as int] != lit@[k as int]);
            }
            return None;
        }
        k = k + 1;
    }
    proof {
        assert(s@.subrange(i as int, i + lit@.len()) =~= lit@);
    }
    Some(i + lit.len())
}

/// Whitespace, then one expected byte.
fn parse_sep(s: &Vec<u8>, i: usize, b: u8) -> (r: Option<usize>)
    requires
        i <= s@.len(),
    ensures
        match r {
            Option::Some(j) => sp_sep(s@, i as int, b) == Option::Some(j as int) && i < j
                <= s@.len(),
            Option::None => sp_sep(s@, i as int, b) is None,
        },
{
    let j = skip_ws(s, i);
    if j < s.len() && s[j] == b {
        Some(j + 1)
    } else {
        None
    }
}

/// A member key up to the start of its value.
fn parse_key(s: &Vec<u8>, i: usize, k: JsonKey) -> (r: Option<usize>)
    requires
        i <= s@.len(),
    ensures
        match r {
            Option::Some(j) => sp_key(s@, i as int, k) == Option::Some(j as int) && i <= j
                <= s@.len(),
            Option::None => sp_key(s@, i as int, k) is None,
        },
{
    let j = skip_ws(s, i);
    let lit = key_lit_bytes(k);
    match parse_lit(s, j, &lit) {
        Some(j2) => {
            let j3 = skip_ws(s, j2);
            if j3 < s.len() && s[j3] == 58 {
                Some(skip_ws(s, j3 + 1))
            } else {
                None
            }
        },
        None => None,
    }
}

/// The value of a hex digit byte.
fn hex_val_x(b: u8) -> (r: Option<u8>)
    ensures
        r == hex_val(b),
{
    if 48 <= b && b <= 57 {
        Some(b - 48)
    } else if 97 <= b && b <= 102 {
        Some(b - 87)
    } else if 65 <= b && b <= 70 {
        Some(b - 55)
    } else {
        None
    }
}

/// Parses a quoted string into its unescaped content bytes.
fn parse_string(s: &Vec<u8>, i: usize) -> (r: Option<(Vec<u8>, usize)>)
    requires
        i <= s@.len(),
    ensures
        match r {
            Option::Some((content, j)) => sp_string(s@, i as int) == Option::Some(
                (content@, j as int),
            ) && i < j <= s@.len(),
            Option::None => sp_string(s@, i as int) is None,
        },
{
    if !(i < s.len() && s[i] == 34) {
        return None;
    }
    let mut acc: Vec<u8> = Vec::new();
    let mut j = i + 1;
    loop
        invariant
            i + 1 <= j <= s@.len(),
            i < s@.len() && s@[i as int] == 34,
            sp_str_body(s@, i + 1, Seq::empty()) == sp_str_body(s@, j as int, acc@),
        decreases s@.len() - j,
    {
        if j >= s.len() {
            return None;
        }
        let c = s[j];
        if c == 34 {
            return Some((acc, j + 1));
        }
        if c == 92 {
            if j + 1 >= s.len() {
                return None;
            }
            let e = s[j + 1];
            if e == 34 {
                acc.push(34);
            } else if e == 92 {
                acc.push(92);
            } else if e == 47 {
                acc.push(47);
            } else if e == 98 {
                acc.push(8);
            } else if e == 116 {
                acc.push(9);
            } else if e == 110 {
                acc.push(10);
            } else if e == 102 {
                acc.push(12);
            } else if e == 114 {
                acc.push(13);
            } else if e == 117 {
                if s.len() - j <= 5 {
                    return None;
                }
                let h0 = hex_val_x(s[j + 2]);
                let h1 = hex_val_x(s[j + 3]);
                let h2 = hex_val_x(s[j + 4]);
                let h3 = hex_val_x(s[j + 5]);
                match (h0, h1, h2, h3) {
                    (Some(a0), Some(a1), Some(a2), Some(a3)) => {
                        let v: u32 = (a0 as u32) * 4096 + (a1 as u32) * 256 + (a2 as u32) * 16 + (
                        a3 as u32);
                        if v >= 128 {
                            return None;
                        }
                        acc.push(v as u8);
                        j = j + 6;
                        continue ;
                    },
                    _ => {
                        return None;
                    },
                }
            } else {
                return None;
            }
            j = j + 2;
            continue ;
        }
        if c < 32 {
            return None;
        }
        acc.push(c);
        j = j + 1;
    }
}

/// An integer or `null`.
fn parse_opt_int(s: &Vec<u8>, i: usize) -> (r: Option<(Option<i64>, usize)>)
    requires
        i <= s@.len(),
    ensures
        match r {
            Option::Some((v, j)) => i <= j <= s@.len() && sp_opt_int(s@, i as int) == Option::Some(
                (
                    match v {
                        Option::Some(x) => Option::Some(x as int),
                        Option::None => Option::None,
                    },
                    j as int,
                ),
            ),
            Option::None => sp_opt_int(s@, i as int) is None,
        },
{
    let nl = null_bytes();
    match parse_lit(s, i, &nl) {
        Some(j) => Some((None, j)),
        None => match parse_int(s, i) {
            Some((v, j)) => Some((Some(v), j)),
            None => None,
        },
    }
}

/// A string or `null`.  `None` in the inner option means the member held
/// `null`.
fn parse_opt_str(s: &Vec<u8>, i: usize) -> (r: Option<(Option<Vec<u8>>, usize)>)
    requires
        i <= s@.len(),
    ensures
        match r {
            Option::Some((v, j)) => i <= j <= s@.len() && sp_opt_str(s@, i as int) == Option::Some(
                (
                    match v {
                        Option::Some(ref b) => Option::Some(b@),
                        Option::None => Option::None,
                    },
                    j as int,
                ),
            ),
            Option::None => sp_opt_str(s@, i as int) is None,
        },
{
    let nl = null_bytes();
    match parse_lit(s, i, &nl) {
        Some(j) => Some((None, j)),
        None => match parse_string(s, i) {
            Some((b, j)) => Some((Some(b), j)),
            None => None,
        },
    }
}

/// The typed meaning of one sensor object at a position.
pub open spec fn sp_sensor_typed(s: Seq<u8>, i: int) -> Option<(SensorV, int)> {
    match sp_sensor_obj(s, i) {
        Option::Some((b, j)) => if sensor_b_ok(b) {
            Option::Some((sensor_b_view(b), j))
        } else {
            Option::None
        },
        Option::None => Option::None,
    }
}

/// The view of an optional content vector.
pub open spec fn opt_vec_view(v: Option<Vec<u8>>) -> Option<Seq<u8>> {
    match v {
        Option::Some(b) => Option::Some(b@),
        Option::None => Option::None,
    }
}

/// Parses one sensor object and converts it to the data model.
fn parse_sensor_obj(s: &Vec<u8>, i: usize) -> (r: Option<(Sensor, usize)>)
    requires
        i <= s@.len(),
    ensures
        match r {
            Option::Some((sen, j)) => i < j <= s@.len() && sp_sensor_typed(s@, i as int)
                == Option::Some((sen@, j as int)),
            Option::None => sp_sensor_typed(s@, i as int) is None,
        },
{
    let i1 = match parse_sep(s, i, 123) {
        Some(x) => x,
        None => {
            return None;
        },
    };
    let i2 = match parse_key(s, i1, JsonKey::SensorId) {
        Some(x) => x,
        None => {
            return None;
        },
    };
    let (sid, i3) = match parse_int(s, i2) {
        Some(x) => x,
        None => {
            return None;
        },
    };
    let i4 = match parse_sep(s, i3, 44) {
        Some(x) => x,
        None => {
            return None;
        },
    };
    let i5 = match parse_key(s, i4, JsonKey::HiveId) {
        Some(x) => x,
        None => {
            return None;
        },
    };
    let (hid, i6) = match parse_int(s, i5) {
        Some(x) => x,
        None => {
            return None;
        },
    };
    let i7 = match parse_sep(s, i6, 44) {
        Some(x) => x,
        None => {
            return None;
        },
    };
    let i8 = match parse_key(s, i7, JsonKey::SensorType) {
        Some(x) => x,
        None => {
            return None;
        },
    };
    let (ty, i9) = match parse_string(s, i8) {
        Some(x) => x,
        None => {
            return None;
        },
    };
    let i10 = match parse_sep(s, i9, 44) {
        Some(x) => x,
        None => {
            return None;
        },
    };
    let i11 = match parse_key(s, i10, JsonKey::LastReading) {
        Some(x) => x,
        None => {
            return None;
        },
    };
    let (lr, i12) = match parse_string(s, i11) {
        Some(x) => x,
        None => {
            return None;
        },
    };
    let i13 = match parse_sep(s, i12, 44) {
        Some(x) => x,
        None => {
            return None;
        },
    };
    let i14 = match parse_key(s, i13, JsonKey::LastReadingTime) {
        Some(x) => x,
        None => {
            return None;
        },
    };
    let (lrt, i15) = match parse_opt_str(s, i14) {
        Some(x) => x,
        None => {
            return None;
        },
    };
    let i16 = match parse_sep(s, i15, 125) {
        Some(x) => x,
        None => {
            return None;
        },
    };
    let ghost b = SensorB {
        sensor_id: sid as int,
        hive_id: hid as int,
        sensor_type: ty@,
        last_reading: lr@,
        last_reading_time: opt_vec_view(lrt),
    };
    proof {
        assert(sp_sensor_obj(s@, i as int) == Option::Some((b, i16 as int)));
    }
    if sid < -2147483648 || sid > 2147483647 {
        return None;
    }
    if hid < -2147483648 || hid > 2147483647 {
        return None;
    }
    let ty_s = match bytes_to_string(ty) {
        Some(x) => x,
        None => {
            return None;
        },
    };
    let lr_s = match bytes_to_string(lr) {
        Some(x) => x,
        None => {
            return None;
        },
    };
    let lrt_s: Option<String> = match lrt {
        Some(bv) => match bytes_to_string(bv) {
            Some(x) => Some(x),
            None => {
                return None;
            },
        },
        None => None,
    };
    let sen = Sensor {
        sensor_id: sid as i32,
        hive_id: hid as i32,
        sensor_type: ty_s,
        last_reading: lr_s,
        last_reading_time: lrt_s,
    };
    proof {
        vstd::utf8::encode_utf8_decode_utf8(sen.sensor_type@);
        vstd::utf8::encode_utf8_decode_utf8(sen.last_reading@);
        if sen.last_reading_time is Some {
            vstd::utf8::encode_utf8_decode_utf8(sen.last_reading_time->0@);
        }
        assert(sensor_b_ok(b));
        assert(sen@ == sensor_b_view(b));
    }
    Some((sen, i16))
}

/// Decodes a sensor payload.
pub fn decode_sensor(payload: &Vec<u8>) -> (r: Option<Sensor>)
    ensures
        match r {
            Option::Some(sen) => spec_decode_sensor(payload@) == Option::Some(sen@),
            Option::None => spec_decode_sensor(payload@) is None,
        },
{
    match parse_sensor_obj(payload, 0) {
        Some((sen, j)) => {
            let j2 = skip_ws(payload, j);
            if j2 == payload.len() {
                Some(sen)
            } else {
                None
            }
        },
        None => None,
    }
}

/// Decodes a delete payload.
pub fn decode_delete(payload: &Vec<u8>) -> (r: Option<DeleteSensor>)
    ensures
        match r {
            Option::Some(d) => spec_decode_delete(payload@) == Option::Some(
                (d.hive_id as int, d.sensor_id as int),
            ),
            Option::None => spec_decode_delete(payload@) is None,
        },
{
    let s = payload;
    let i1 = match parse_sep(s, 0, 123) {
        Some(x) => x,
        None => {
            return None;
        },
    };
    let i2 = match parse_key(s, i1, JsonKey::HiveId) {
        Some(x) => x,
        None => {
            return None;
        },
    };
    let (hid, i3) = match parse_int(s, i2) {
        Some(x) => x,
        None => {
            return None;
        },
    };
    let i4 = match parse_sep(s, i3, 44) {
        Some(x) => x,
        None => {
            return None;
        },
    };
    let i5 = match parse_key(s, i4, JsonKey::SensorId) {
        Some(x) => x,
        None => {
            return None;
        },
    };
    let (sid, i6) = match parse_int(s, i5) {
        Some(x) => x,
        None => {
            return None;
        },
    };
    let i7 = match parse_sep(s, i6, 125) {
        Some(x) => x,
        None => {
            return None;
        },
    };
    let j_end = skip_ws(s, i7);
    if j_end != s.len() {
        return None;
    }
    if hid < -2147483648 || hid > 2147483647 {
        return None;
    }
    if sid < -2147483648 || sid > 2147483647 {
        return None;
    }
    Some(DeleteSensor { hive_id: hid as i32, sensor_id: sid as i32 })
}

/// Decodes a reading payload.
pub fn decode_reading(payload: &Vec<u8>) -> (r: Option<SensorReading>)
    ensures
        match r {
            Option::Some(rd) => spec_decode_reading(payload@) == Option::Some(rd@),
            Option::None => spec_decode_reading(payload@) is None,
        },
{
    let s = payload;
    let i1 = match parse_sep(s, 0, 123) {
        Some(x) => x,
        None => {
            return None;
        },
    };
    let i2 = match parse_key(s, i1, JsonKey::ReadingId) {
        Some(x) => x,
        None => {
            return None;
        },
    };
    let (rid, i3) = match parse_opt_int(s, i2) {
        Some(x) => x,
        None => {
            return None;
        },
    };
    let i4 = match parse_sep(s, i3, 44) {
        Some(x) => x,
        None => {
            return None;
        },
    };
    let i5 = match parse_key(s, i4, JsonKey::SensorId) {
        Some(x) => x,
        None => {
            return None;
        },
    };
    let (sid, i6) = match parse_int(s, i5) {
        Some(x) => x,
        None => {
            return None;
        },
    };
    let i7 = match parse_sep(s, i6, 44) {
        Some(x) => x,
        None => {
            return None;
        },
    };
    let i8 = match parse_key(s, i7, JsonKey::Value) {
        Some(x) => x,
        None => {
            return None;
        },
    };
    let (val, i9) = match parse_string(s, i8) {
        Some(x) => x,
        None => {
            return None;
        },
    };
    let i10 = match parse_sep(s, i9, 44) {
        Some(x) => x,
        None => {
            return None;
        },
    };
    let i11 = match parse_key(s, i10, JsonKey::Timestamp) {
        Some(x) => x,
        None => {
            return None;
        },
    };
    let (ts, i12) = match parse_opt_str(s, i11) {
        Some(x) => x,
        None => {
            return None;
        },
    };
    let i13 = match parse_sep(s, i12, 125) {
        Some(x) => x,
        None => {
            return None;
        },
    };
    let j_end = skip_ws(s, i13);
    if j_end != s.len() {
        return None;
    }
    let ghost b = ReadingB {
        reading_id: match rid {
            Option::Some(x) => Option::Some(x as int),
            Option::None => Option::None,
        },
        sensor_id: sid as int,
        value: val@,
        timestamp: opt_vec_view(ts),
    };
    proof {
        assert(sp_reading(s@) == Option::Some(b));
    }
    let rid32: Option<i32> = match rid {
        Some(x) => {
            if x < -2147483648 || x > 2147483647 {
                return None;
            }
            Some(x as i32)
        },
        None => None,
    };
    if sid < -2147483648 || sid > 2147483647 {
        return None;
    }
    let val_s = match bytes_to_string(val) {
        Some(x) => x,
        None => {
            return None;
        },
    };
    let ts_s: Option<String> = match ts {
        Some(bv) => match bytes_to_string(bv) {
            Some(x) => Some(x),
            None => {
                return None;
            },
        },
        None => None,
    };
    let rd = SensorReading { reading_id: rid32, sensor_id: sid as i32, value: val_s, timestamp: ts_s };
    proof {
        vstd::utf8::encode_utf8_decode_utf8(rd.value@);
        if rd.timestamp is Some {
            vstd::utf8::encode_utf8_decode_utf8(rd.timestamp->0@);
        }
        assert(reading_b_ok(b));
        assert(spec_decode_reading(s@) == Option::Some(rd@));
    }
    Some(rd)
}

/// A parse result only ever extends the members already collected.
proof fn lemma_items_extends(s: Seq<u8>, i: int, acc: Seq<SensorB>)
    ensures
        sp_sensor_items(s, i, acc) matches Option::Some((res, e)) ==> res.len() > acc.len() && (
        forall|k: int| 0 <= k < acc.len() ==> res[k] == acc[k]),
    decreases s.len() - i,
{
    match sp_sensor_obj(s, i) {
        Option::Some((sen, j)) => {
            let j2 = sp_ws(s, j);
            if 0 <= j2 < s.len() && s[j2] == 44 {
                if i < j2 + 1 <= s.len() {
                    lemma_items_extends(s, j2 + 1, acc.push(sen));
                }
            }
        },
        Option::None => {},
    }
}

/// Decodes a hive-creation payload.
#[verifier::loop_isolation(false)]
#[verifier::rlimit(100)]
pub fn decode_create_hive(payload: &Vec<u8>) -> (r: Option<CreateHive>)
    ensures
        match r {
            Option::Some(m) => spec_decode_create_hive(payload@) == Option::Some(
                (m.hive_id as int, m.sensor_views()),
            ),
            Option::None => spec_decode_create_hive(payload@) is None,
        },
{
    let s = payload;
    let i1 = match parse_sep(s, 0, 123) {
        Some(x) => x,
        None => {
            return None;
        },
    };
    let i2 = match parse_key(s, i1, JsonKey::HiveId) {
        Some(x) => x,
        None => {
            return None;
        },
    };
    let (hid, i3) = match parse_int(s, i2) {
        Some(x) => x,
        None => {
            return None;
        },
    };
    let i4 = match parse_sep(s, i3, 44) {
        Some(x) => x,
        None => {
            return None;
        },
    };
    let i5 = match parse_key(s, i4, JsonKey::Sensors) {
        Some(x) => x,
        None => {
            return None;
        },
    };
    let i6 = match parse_sep(s, i5, 91) {
        Some(x) => x,
        None => {
            return None;
        },
    };
    let j2 = skip_ws(s, i6);
    let mut sensors: Vec<Sensor> = Vec::new();
    let ghost mut bs: Seq<SensorB> = Seq::empty();
    let mut after: usize = 0;
    if j2 < s.len() && s[j2] == 93 {
        after = j2 + 1;
        proof {
            assert(sp_sensor_array(s@, i5 as int) == Option::Some((bs, after as int)));
        }
    } else {
        let mut cur: usize = i6;
        let mut done = false;
        while !done
            invariant
                i6 <= cur <= s@.len(),
                bs.len() == sensors@.len(),
                forall|k: int|
                    0 <= k < bs.len() ==> sensor_b_ok(#[trigger] bs[k]) && sensors@[k]@
                        == sensor_b_view(bs[k]),
                !done ==> sp_sensor_items(s@, i6 as int, Seq::empty()) == sp_sensor_items(
                    s@,
                    cur as int,
                    bs,
                ),
                done ==> sp_sensor_items(s@, i6 as int, Seq::empty()) == Option::Some(
                    (bs, after as int),
                ) && after <= s@.len(),
            decreases s@.len() - cur + (if done {
                0int
            } else {
                1int
            }),
        {
            match parse_sensor_obj(s, cur) {
                None => {
                    proof {
                        match sp_sensor_obj(s@, cur as int) {
                            Option::Some((b, jj)) => {
                                assert(!sensor_b_ok(b));
                                let j2i = sp_ws(s@, jj);
                                if 0 <= j2i < s@.len() && s@[j2i] == 44 {
                                    if (cur as int) < j2i + 1 <= s@.len() {
                                        lemma_items_extends(s@, j2i + 1, bs.push(b));
                                    }
                                }
                                match sp_sensor_items(s@, cur as int, bs) {
                                    Option::Some((res, _e)) => {
                                        let chb = CreateHiveB { hive_id: hid as int, sensors: res };
                                        assert(0 <= bs.len() < res.len());
                                        assert(chb.sensors[bs.len() as int] == b);
                                        assert(!sensor_b_ok(chb.sensors[bs.len() as int]));
                                        assert(!create_b_ok(chb));
                                    },
                                    Option::None => {},
                                }
                            },
                            Option::None => {},
                        }
                    }
                    return None;
                },
                Some((sen, j)) => {
                    let ghost ob = sp_sensor_obj(s@, cur as int);
                    let ghost b = (ob->0).0;
                    let jw = skip_ws(s, j);
                    if jw < s.len() && s[jw] == 44 {
                        sensors.push(sen);
                        proof {
                            bs = bs.push(b);
                        }
                        cur = jw + 1;
                    } else if jw < s.len() && s[jw] == 93 {
                        sensors.push(sen);
                        proof {
                            bs = bs.push(b);
                        }
                        after = jw + 1;
                        done = true;
                    } else {
                        return None;
                    }
                },
            }
        }
        proof {
            assert(sp_sensor_array(s@, i5 as int) == Option::Some((bs, after as int)));
        }
    }
    let i7 = match parse_sep(s, after, 125) {
        Some(x) => x,
        None => {
            return None;
        },
    };
    let j_end = skip_ws(s, i7);
    if j_end != s.len() {
        return None;
    }
    let ghost cb = CreateHiveB { hive_id: hid as int, sensors: bs };
    proof {
        assert(sp_create_hive(s@) == Option::Some(cb));
    }
    if hid < -2147483648 || hid > 2147483647 {
        return None;
    }
    let m = CreateHive { hive_id: hid as i32, sensors };
    proof {
        assert(create_b_ok(cb));
        assert(m.sensor_views() =~= cb.sensors.map_values(|x: SensorB| sensor_b_view(x)));
    }
    Some(m)
}

// ---------------------------------------------------------------------
// Round trip: parsing the canonical form gives back the value
// ---------------------------------------------------------------------
/// The numeric value of a digit sequence, most significant first.
pub open spec fn val_digits(d: Seq<u8>) -> int
    decreases d.len(),
{
    if d.len() == 0 {
        0
    } else {
        (d[0] - 48) * pow10((d.len() - 1) as nat) + val_digits(d.drop_first())
    }
}

/// Appending a digit multiplies the value by ten and adds it.
proof fn lemma_val_push(d: Seq<u8>, b: u8)
    ensures
        val_digits(d.push(b)) == val_digits(d) * 10 + (b - 48),
    decreases d.len(),
{
    if d.len() == 0 {
        reveal_with_fuel(val_digits, 3);
        assert(d.push(b).drop_first() =~= Seq::<u8>::empty());
        assert(d.push(b)[0] == b);
    } else {
        assert(d.push(b).drop_first() =~= d.drop_first().push(b));
        lemma_val_push(d.drop_first(), b);
        let n = d.len() as int;
        assert(d.push(b)[0] == d[0]);
        assert(val_digits(d.push(b)) == (d[0] - 48) * pow10((n as nat)) + (val_digits(
            d.drop_first(),
        ) * 10 + (b - 48)));
        assert((d[0] - 48) * pow10(n as nat) == ((d[0] - 48) * pow10((n - 1) as nat)) * 10)
            by (nonlinear_arith)
            requires
                pow10(n as nat) == 10 * pow10((n - 1) as nat),
        ;
    }
}

/// The printed digits of a number: at least one digit, digits only, the
/// printed value, and a length bound from the number's size.
proof fn lemma_dec_digits_props(n: nat)
    ensures
        1 <= dec_digits(n).len(),
        forall|k: int| 0 <= k < dec_digits(n).len() ==> is_digit(#[trigger] dec_digits(n)[k]),
        val_digits(dec_digits(n)) == n,
    decreases n,
{
    if n < 10 {
        reveal_with_fuel(val_digits, 2);
        assert(dec_digits(n).drop_first() =~= Seq::<u8>::empty());
    } else {
        lemma_dec_digits_props(n / 10);
        lemma_val_push(dec_digits(n / 10), (48 + (n % 10)) as u8);
        assert forall|k: int| 0 <= k < dec_digits(n).len() implies is_digit(
            #[trigger] dec_digits(n)[k],
        ) by {
            if k < dec_digits(n / 10).len() {
                assert(dec_digits(n)[k] == dec_digits(n / 10)[k]);
            }
        }
    }
}

/// Fewer than `10^k` has at most `k` digits.
proof fn lemma_dec_digits_len(n: nat, k: nat)
    requires
        1 <= k,
        n < pow10(k),
    ensures
        dec_digits(n).len() <= k,
    decreases n,
{
    if n < 10 {
    } else {
        if k < 2 {
            reveal_with_fuel(pow10, 3);
            assert(false);
        }
        assert(pow10(k) == 10 * pow10((k - 1) as nat));
        lemma_pow10_mono(1, (k - 1) as nat);
        lemma_dec_digits_len(n / 10, (k - 1) as nat);
    }
}

/// Reading digits where the printed digits of a value stand gives that
/// value back.
proof fn lemma_digits_round(s: Seq<u8>, i: int, acc: int, count: int, d: Seq<u8>)
    requires
        0 <= i,
        i + d.len() <= s.len(),
        1 <= d.len(),
        0 <= count,
        count + d.len() <= 18,
        forall|k: int| 0 <= k < d.len() ==> s[i + k] == d[k] && is_digit(#[trigger] d[k]),
        i + d.len() == s.len() || !is_digit(s[i + d.len()]),
    ensures
        sp_digits(s, i, acc, count) == Option::Some(
            (acc * pow10(d.len() as nat) + val_digits(d), i + d.len()),
        ),
    decreases d.len(),
{
    assert(s[i + 0] == d[0] && is_digit(d[0]));
    if d.len() == 1 {
        reveal_with_fuel(val_digits, 2);
        reveal_with_fuel(pow10, 3);
        assert(d.drop_first() =~= Seq::<u8>::empty());
        let x = (d[0] - 48) as int;
        assert(pow10(0) == 1 && pow10(1) == 10);
        assert(val_digits(d) == x * pow10(0));
        assert(x * pow10(0) == x) by (nonlinear_arith)
            requires
                pow10(0) == 1,
        ;
        assert(acc * pow10(1) == acc * 10) by (nonlinear_arith)
            requires
                pow10(1) == 10,
        ;
        assert(sp_digits(s, i + 1, acc * 10 + (s[i] - 48), count + 1) == Option::Some(
            (acc * 10 + x, i + 1),
        ));
    } else {
        let dr = d.drop_first();
        let x = (d[0] - 48) as int;
        let acc2 = acc * 10 + x;
        assert forall|k: int| 0 <= k < dr.len() implies s[(i + 1) + k] == dr[k] && is_digit(
            #[trigger] dr[k],
        ) by {
            assert(s[i + (k + 1)] == d[k + 1]);
        }
        lemma_digits_round(s, i + 1, acc2, count + 1, dr);
        let m = dr.len() as nat;
        let p = pow10(m);
        assert(pow10((m + 1) as nat) == 10 * p);
        assert(acc2 * p == acc * (10 * p) + x * p) by (nonlinear_arith)
            requires
                acc2 == acc * 10 + x,
        ;
        assert(val_digits(d) == x * p + val_digits(dr));
    }
}

/// Reading an integer where an integer's canonical form stands gives it
/// back.
proof fn lemma_int_round(s: Seq<u8>, i: int, v: int)
    requires
        0 <= i,
        in_i32(v),
        i + int_json(v).len() <= s.len(),
        s.subrange(i, i + int_json(v).len() as int) == int_json(v),
        i + int_json(v).len() == s.len() || !is_digit(s[i + int_json(v).len()]),
    ensures
        sp_int(s, i) == Option::Some((v, i + int_json(v).len())),
{
    assert(pow10(10) == 10_000_000_000) by {
        reveal_with_fuel(pow10, 11);
    }
    if v >= 0 {
        let d = dec_digits(v as nat);
        lemma_dec_digits_props(v as nat);
        lemma_dec_digits_len(v as nat, 10);
        assert forall|k: int| 0 <= k < d.len() implies s[i + k] == d[k] && is_digit(
            #[trigger] d[k],
        ) by {
            assert(s.subrange(i, i + int_json(v).len() as int)[k] == d[k]);
        }
        assert(!(s[i] == 45));
        lemma_digits_round(s, i, 0, 0, d);
    } else {
        let d = dec_digits((-v) as nat);
        lemma_dec_digits_props((-v) as nat);
        lemma_dec_digits_len((-v) as nat, 10);
        assert(s.subrange(i, i + int_json(v).len() as int)[0] == 45);
        assert(s[i] == 45);
        assert forall|k: int| 0 <= k < d.len() implies s[(i + 1) + k] == d[k] && is_digit(
            #[trigger] d[k],
        ) by {
            assert(s.subrange(i, i + int_json(v).len() as int)[k + 1] == d[k]);
        }
        lemma_digits_round(s, i + 1, 0, 0, d);
    }
}

/// A hex digit reads back as its value.
proof fn lemma_hex_digit(x: u8)
    requires
        x < 16,
    ensures
        hex_val(hex_digit(x)) == Option::Some(x),
{
}

/// Reading a string body where an escaped body stands, followed by the
/// closing quote, gives the body back.
proof fn lemma_str_body_round(s: Seq<u8>, i: int, acc: Seq<u8>, b: Seq<u8>)
    requires
        0 <= i,
        i + escape_bytes(b).len() + 1 <= s.len(),
        forall|k: int| 0 <= k < escape_bytes(b).len() ==> s[i + k] == escape_bytes(b)[k],
        s[i + escape_bytes(b).len()] == 34,
    ensures
        sp_str_body(s, i, acc) == Option::Some((acc + b, i + escape_bytes(b).len() + 1)),
    decreases b.len(),
{
    if b.len() == 0 {
        assert(escape_bytes(b).len() == 0);
        assert(s[i] == 34);
        assert(acc + b =~= acc);
    } else {
        let b0 = b[0];
        let e0 = escape_byte(b0);
        let rest = escape_bytes(b.drop_first());
        assert(escape_bytes(b) == e0 + rest);
        assert forall|k: int| 0 <= k < e0.len() implies s[i + k] == e0[k] by {
            assert((e0 + rest)[k] == e0[k]);
        }
        assert(s[i + 0] == e0[0]);
        if e0.len() >= 2 {
            assert(s[i + 1] == e0[1]);
        }
        if e0.len() == 6 {
            assert(s[i + 2] == e0[2]);
            assert(s[i + 3] == e0[3]);
            assert(s[i + 4] == e0[4]);
            assert(s[i + 5] == e0[5]);
        }
        assert forall|k: int| 0 <= k < rest.len() implies s[(i + e0.len()) + k] == rest[k] by {
            assert((e0 + rest)[e0.len() as int + k] == rest[k]);
        }
        lemma_str_body_round(s, i + e0.len(), acc.push(b0), b.drop_first());
        assert(acc.push(b0) + b.drop_first() =~= acc + b);
        if b0 == 34 || b0 == 92 || b0 == 8 || b0 == 9 || b0 == 10 || b0 == 12 || b0 == 13 {
            assert(s[i] == 92);
        } else if b0 < 32 {
            assert(s[i] == 92 && s[i + 1] == 117 && s[i + 2] == 48 && s[i + 3] == 48);
            assert(s[i + 4] == hex_digit(b0 / 16) && s[i + 5] == hex_digit(b0 % 16));
            lemma_hex_digit(b0 / 16);
            lemma_hex_digit(b0 % 16);
            assert((0 as u8) * 4096 + (0 as u8) * 256 + (b0 / 16) * 16 + (b0 % 16) == b0);
        } else {
            assert(s[i] == b0);
        }
    }
}

/// Reading a string where a string's canonical form stands gives it back.
proof fn lemma_string_round(s: Seq<u8>, i: int, b: Seq<u8>)
    requires
        0 <= i,
        i + str_json(b).len() <= s.len(),
        s.subrange(i, i + str_json(b).len() as int) == str_json(b),
    ensures
        sp_string(s, i) == Option::Some((b, i + str_json(b).len())),
{
    let e = escape_bytes(b);
    assert(str_json(b).len() == e.len() + 2);
    assert(s.subrange(i, i + str_json(b).len() as int)[0] == 34);
    assert(s[i] == 34);
    assert forall|k: int| 0 <= k < e.len() implies s[(i + 1) + k] == e[k] by {
        assert(s.subrange(i, i + str_json(b).len() as int)[k + 1] == e[k]);
    }
    assert(s.subrange(i, i + str_json(b).len() as int)[e.len() as int + 1] == 34);
    assert(s[i + 1 + e.len()] == 34);
    lemma_str_body_round(s, i + 1, Seq::empty(), b);
    assert(Seq::empty() + b =~= b);
}

/// Reading a member key where its canonical form stands, with no
/// whitespace before the value, lands at the value.
proof fn lemma_key_round(s: Seq<u8>, i: int, k: JsonKey)
    requires
        0 <= i,
        i + key_json(k).len() <= s.len(),
        s.subrange(i, i + key_json(k).len() as int) == key_json(k),
        i + key_json(k).len() == s.len() || !is_ws(s[i + key_json(k).len()]),
    ensures
        sp_key(s, i, k) == Option::Some(i + key_json(k).len() as int),
{
    let name = key_name(k);
    let lit = seq![34u8] + name + seq![34u8];
    let kj = key_json(k);
    assert(kj.len() == name.len() + 3);
    assert(kj[0] == 34);
    assert(s.subrange(i, i + kj.len() as int)[0] == 34);
    assert(s[i] == 34);
    assert(sp_ws(s, i) == i);
    assert(s.subrange(i, i + lit.len() as int) =~= lit) by {
        assert forall|t: int| 0 <= t < lit.len() implies s.subrange(i, i + lit.len() as int)[t]
            == lit[t] by {
            assert(s.subrange(i, i + kj.len() as int)[t] == kj[t]);
            assert(kj[t] == lit[t]);
        }
    }
    let j2 = i + lit.len() as int;
    assert(s.subrange(i, i + kj.len() as int)[kj.len() as int - 1] == kj[kj.len() as int - 1]);
    assert(kj[kj.len() as int - 1] == 58);
    assert(s[j2] == 58);
    assert(sp_ws(s, j2) == j2);
    assert(sp_ws(s, j2 + 1) == j2 + 1);
}

/// Where each printed fragment of a reading payload stands.
#[verifier::rlimit(100)]
#[verifier::spinoff_prover]
proof fn lemma_reading_layout(r: ReadingV)
    ensures
        ({
            let s = reading_json(r);
            let k1 = key_json(JsonKey::ReadingId);
            let v1 = opt_int_json(r.reading_id);
            let k2 = key_json(JsonKey::SensorId);
            let v2 = int_json(r.sensor_id);
            let k3 = key_json(JsonKey::Value);
            let v3 = str_json(encode_utf8(r.value));
            let k4 = key_json(JsonKey::Timestamp);
            let v4 = opt_str_json(
                match r.timestamp {
                    Option::Some(t) => Option::Some(encode_utf8(t)),
                    Option::None => Option::None,
                },
            );
            let p1 = 1int;
            let p2 = p1 + k1.len() as int;
            let p3 = p2 + v1.len() as int;
            let p4 = p3 + 1;
            let p5 = p4 + k2.len() as int;
            let p6 = p5 + v2.len() as int;
            let p7 = p6 + 1;
            let p8 = p7 + k3.len() as int;
            let p9 = p8 + v3.len() as int;
            let p10 = p9 + 1;
            let p11 = p10 + k4.len() as int;
            let p12 = p11 + v4.len() as int;
            let p13 = p12 + 1;
            &&& s.len() == p13
            &&& s[0] == 123
            &&& s.subrange(p1, p2) == k1
            &&& s.subrange(p2, p3) == v1
            &&& s[p3] == 44
            &&& s.subrange(p4, p5) == k2
            &&& s.subrange(p5, p6) == v2
            &&& s[p6] == 44
            &&& s.subrange(p7, p8) == k3
            &&& s.subrange(p8, p9) == v3
            &&& s[p9] == 44
            &&& s.subrange(p10, p11) == k4
            &&& s.subrange(p11, p12) == v4
            &&& s[p12] == 125
        }),
{
    let s = reading_json(r);
    let k1 = key_json(JsonKey::ReadingId);
    let v1 = opt_int_json(r.reading_id);
    let k2 = key_json(JsonKey::SensorId);
    let v2 = int_json(r.sensor_id);
    let k3 = key_json(JsonKey::Value);
    let v3 = str_json(encode_utf8(r.value));
    let k4 = key_json(JsonKey::Timestamp);
    let v4 = opt_str_json(
        match r.timestamp {
            Option::Some(t) => Option::Some(encode_utf8(t)),
            Option::None => Option::None,
        },
    );
    let p1 = 1int;
    let p2 = p1 + k1.len() as int;
    let p3 = p2 + v1.len() as int;
    let p4 = p3 + 1;
    let p5 = p4 + k2.len() as int;
    let p6 = p5 + v2.len() as int;
    let p7 = p6 + 1;
    let p8 = p7 + k3.len() as int;
    let p9 = p8 + v3.len() as int;
    let p10 = p9 + 1;
    let p11 = p10 + k4.len() as int;
    let p12 = p11 + v4.len() as int;
    assert(s.len() == p12 + 1);
    assert(s[0] == 123);
    assert(s.subrange(p1, p2) =~= k1);
    assert(s.subrange(p2, p3) =~= v1);
    assert(s[p3] == 44);
    assert(s.subrange(p4, p5) =~= k2);
    assert(s.subrange(p5, p6) =~= v2);
    assert(s[p6] == 44);
    assert(s.subrange(p7, p8) =~= k3);
    assert(s.subrange(p8, p9) =~= v3);
    assert(s[p9] == 44);
    assert(s.subrange(p10, p11) =~= k4);
    assert(s.subrange(p11, p12) =~= v4);
    assert(s[p12] == 125);
}

/// Parsing the canonical payload of a reading gives the reading back:
/// `sensor_id`, `reading_id`, `value` and `timestamp` survive the round
/// trip exactly.
#[verifier::rlimit(100)]
#[verifier::spinoff_prover]
pub proof fn lemma_reading_round_trip(r: ReadingV)
    requires
        in_i32(r.sensor_id),
        match r.reading_id {
            Option::Some(v) => in_i32(v),
            Option::None => true,
        },
    ensures
        spec_decode_reading(reading_json(r)) == Option::Some(r),
{
    let s = reading_json(r);
    let k1 = key_json(JsonKey::ReadingId);
    let v1 = opt_int_json(r.reading_id);
    let k2 = key_json(JsonKey::SensorId);
    let v2 = int_json(r.sensor_id);
    let k3 = key_json(JsonKey::Value);
    let vb = encode_utf8(r.value);
    let v3 = str_json(vb);
    let k4 = key_json(JsonKey::Timestamp);
    let tb = match r.timestamp {
        Option::Some(t) => Option::Some(encode_utf8(t)),
        Option::None => Option::None,
    };
    let v4 = opt_str_json(tb);
    let p1 = 1int;
    let p2 = p1 + k1.len() as int;
    let p3 = p2 + v1.len() as int;
    let p4 = p3 + 1;
    let p5 = p4 + k2.len() as int;
    let p6 = p5 + v2.len() as int;
    let p7 = p6 + 1;
    let p8 = p7 + k3.len() as int;
    let p9 = p8 + v3.len() as int;
    let p10 = p9 + 1;
    let p11 = p10 + k4.len() as int;
    let p12 = p11 + v4.len() as int;
    let p13 = p12 + 1;
    lemma_reading_layout(r);
    assert(s.len() == p13);
    // opening brace
    assert(sp_ws(s, 0) == 0);
    assert(sp_sep(s, 0, 123) == Option::Some(p1));
    // reading_id
    lemma_value_head(r.reading_id);
    assert(s.subrange(p2, p3)[0] == v1[0]);
    assert(s[p2] == v1[0]);
    lemma_key_round(s, p1, JsonKey::ReadingId);
    lemma_opt_int_round(s, p2, r.reading_id, p3);
    assert(sp_ws(s, p3) == p3);
    assert(sp_sep(s, p3, 44) == Option::Some(p4));
    // sensor_id
    lemma_dec_digits_props_head(r.sensor_id);
    assert(s.subrange(p5, p6)[0] == v2[0]);
    assert(s[p5] == v2[0]);
    lemma_key_round(s, p4, JsonKey::SensorId);
    lemma_int_round(s, p5, r.sensor_id);
    assert(sp_ws(s, p6) == p6);
    assert(sp_sep(s, p6, 44) == Option::Some(p7));
    // value
    assert(s.subrange(p8, p9)[0] == v3[0]);
    assert(s[p8] == 34);
    lemma_key_round(s, p7, JsonKey::Value);
    lemma_string_round(s, p8, vb);
    assert(sp_lit(s, p8, null_json()) is None) by {
        if p8 + 4 <= s.len() && s.subrange(p8, p8 + 4) == null_json() {
            assert(s.subrange(p8, p8 + 4)[0] == 110);
            assert(false);
        }
    }
    assert(sp_opt_str(s, p8) == Option::Some((Option::Some(vb), p9)));
    assert(sp_ws(s, p9) == p9);
    assert(sp_sep(s, p9, 44) == Option::Some(p10));
    // timestamp
    lemma_opt_str_head(tb);
    assert(s.subrange(p11, p12)[0] == v4[0]);
    assert(s[p11] == v4[0]);
    lemma_key_round(s, p10, JsonKey::Timestamp);
    lemma_opt_str_round(s, p11, tb, p12);
    // closing brace and end of input
    assert(sp_ws(s, p12) == p12);
    assert(sp_sep(s, p12, 125) == Option::Some(p13));
    assert(sp_ws(s, p13) == p13);
    let b = ReadingB { reading_id: r.reading_id, sensor_id: r.sensor_id, value: vb, timestamp: tb };
    assert(sp_reading(s) == Option::Some(b));
    vstd::utf8::encode_utf8_valid_utf8(r.value);
    vstd::utf8::encode_utf8_decode_utf8(r.value);
    match r.timestamp {
        Option::Some(t) => {
            vstd::utf8::encode_utf8_valid_utf8(t);
            vstd::utf8::encode_utf8_decode_utf8(t);
        },
        Option::None => {},
    }
    assert(reading_b_ok(b));
    assert(spec_decode_reading(s) == Option::Some(r));
}

/// The first byte of a printed integer or `null` is not whitespace.
proof fn lemma_value_head(v: Option<int>)
    ensures
        opt_int_json(v).len() >= 1,
        !is_ws(opt_int_json(v)[0]),
        opt_int_json(v)[0] != 125,
        opt_int_json(v)[0] != 44,
{
    match v {
        Option::Some(i) => {
            if i >= 0 {
                lemma_dec_digits_props(i as nat);
                assert(is_digit(dec_digits(i as nat)[0]));
            } else {
                assert(opt_int_json(v)[0] == 45);
            }
        },
        Option::None => {
            assert(opt_int_json(v)[0] == 110);
        },
    }
}

/// The first byte of a printed integer is a digit or the minus sign.
proof fn lemma_dec_digits_props_head(v: int)
    requires
        in_i32(v),
    ensures
        int_json(v).len() >= 1,
        !is_ws(int_json(v)[0]),
{
    if v >= 0 {
        lemma_dec_digits_props(v as nat);
        assert(is_digit(dec_digits(v as nat)[0]));
    } else {
        assert(int_json(v)[0] == 45);
    }
}

/// The first byte of a printed string or `null` is not whitespace.
proof fn lemma_opt_str_head(v: Option<Seq<u8>>)
    ensures
        opt_str_json(v).len() >= 1,
        !is_ws(opt_str_json(v)[0]),
{
    match v {
        Option::Some(b) => {
            assert(opt_str_json(v)[0] == 34);
        },
        Option::None => {
            assert(opt_str_json(v)[0] == 110);
        },
    }
}

/// Reading an optional integer where its canonical form stands, followed
/// by a comma, gives it back.
proof fn lemma_opt_int_round(s: Seq<u8>, i: int, v: Option<int>, end: int)
    requires
        0 <= i,
        end == i + opt_int_json(v).len() as int,
        end < s.len(),
        s.subrange(i, end) == opt_int_json(v),
        !is_digit(s[end]),
        match v {
            Option::Some(x) => in_i32(x),
            Option::None => true,
        },
    ensures
        sp_opt_int(s, i) == Option::Some((v, end)),
{
    match v {
        Option::Some(x) => {
            assert forall|k: int| 0 <= k < int_json(x).len() implies s[i + k] == int_json(x)[k] by {
                assert(s.subrange(i, end)[k] == int_json(x)[k]);
            }
            assert(s.subrange(i, i + int_json(x).len() as int) =~= int_json(x));
            lemma_int_round(s, i, x);
            assert(sp_lit(s, i, null_json()) is None) by {
                if i + 4 <= s.len() && s.subrange(i, i + 4) == null_json() {
                    assert(s[i] == 110);
                    lemma_dec_digits_props_head(x);
                    assert(s.subrange(i, end)[0] == int_json(x)[0]);
                    if x >= 0 {
                        lemma_dec_digits_props(x as nat);
                        assert(is_digit(int_json(x)[0]));
                        assert(false);
                    } else {
                        assert(int_json(x)[0] == 45);
                        assert(false);
                    }
                }
            }
        },
        Option::None => {
            assert(s.subrange(i, i + 4) =~= null_json());
            assert(sp_lit(s, i, null_json()) == Option::Some(i + 4));
        },
    }
}

/// Reading an optional string where its canonical form stands gives it
/// back.
proof fn lemma_opt_str_round(s: Seq<u8>, i: int, v: Option<Seq<u8>>, end: int)
    requires
        0 <= i,
        end == i + opt_str_json(v).len() as int,
        end <= s.len(),
        s.subrange(i, end) == opt_str_json(v),
    ensures
        sp_opt_str(s, i) == Option::Some((v, end)),
{
    match v {
        Option::Some(b) => {
            assert(s.subrange(i, i + str_json(b).len() as int) =~= str_json(b)) by {
                assert forall|k: int| 0 <= k < str_json(b).len() implies s.subrange(
                    i,
                    i + str_json(b).len() as int,
                )[k] == str_json(b)[k] by {
                    assert(s.subrange(i, end)[k] == str_json(b)[k]);
                }
            }
            lemma_string_round(s, i, b);
            assert(sp_lit(s, i, null_json()) is None) by {
                if i + 4 <= s.len() && s.subrange(i, i + 4) == null_json() {
                    assert(s[i] == 110);
                    assert(s.subrange(i, end)[0] == 34);
                    assert(false);
                }
            }
        },
        Option::None => {
            assert(s.subrange(i, i + 4) =~= null_json());
            assert(sp_lit(s, i, null_json()) == Option::Some(i + 4));
        },
    }
}

} // verus!
