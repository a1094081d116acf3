//! The wire codec: protocol values, their encoding to bytes, and a
//! decoder that reads one value from a byte buffer.
//!
//! Value shapes on the wire: status `+text\r\n`, error `-text\r\n`,
//! bulk string `$len\r\nbytes\r\n`, null `$-1\r\n`, and array
//! `*count\r\n` followed by `count` encoded values.

use vstd::prelude::*;
use crate::bytes::{dec_digits, dec_val, is_digit};

verus! {

/// One protocol value, as sent in a reply or received in a request.
#[derive(Debug)]
pub enum ReplyValue {
    /// A simple status line, e.g. `OK`.
    Status(Vec<u8>),
    /// An error line shown to the client.
    Error(Vec<u8>),
    /// A length-prefixed, binary-safe payload.
    Bulk(Vec<u8>),
    /// The null marker, distinct from an empty bulk string.
    Null,
    /// An ordered sequence of values.
    Array(Vec<ReplyValue>),
}

/// The mathematical shape of a protocol value, used by all contracts.
pub ghost enum ReplyModel {
    Status(Seq<u8>),
    Error(Seq<u8>),
    Bulk(Seq<u8>),
    Null,
    Array(Seq<ReplyModel>),
}

/// The model of one executable value.
pub open spec fn model_of(v: ReplyValue) -> ReplyModel
    decreases v,
{
    match v {
        ReplyValue::Status(s) => ReplyModel::Status(s@),
        ReplyValue::Error(s) => ReplyModel::Error(s@),
        ReplyValue::Bulk(b) => ReplyModel::Bulk(b@),
        ReplyValue::Null => ReplyModel::Null,
        ReplyValue::Array(items) => ReplyModel::Array(models_of(items@)),
    }
}

/// The models of a sequence of executable values, elementwise.
pub open spec fn models_of(items: Seq<ReplyValue>) -> Seq<ReplyModel>
    decreases items,
{
    if items.len() == 0 {
        Seq::empty()
    } else {
        seq![model_of(items[0])] + models_of(items.drop_first())
    }
}

impl View for ReplyValue {
    type V = ReplyModel;

    open spec fn view(&self) -> ReplyModel {
        model_of(*self)
    }
}

/// `models_of` maps elementwise: same length, model at each index.
pub proof fn lemma_models_of(items: Seq<ReplyValue>)
    ensures
        models_of(items).len() == items.len(),
        forall|i: int| 0 <= i < items.len() ==> models_of(items)[i] == model_of(
            #[trigger] items[i],
        ),
    decreases items,
{
    if items.len() > 0 {
        lemma_models_of(items.drop_first());
        assert forall|i: int| 0 <= i < items.len() implies models_of(items)[i] == model_of(
            #[trigger] items[i],
        ) by {
            if i > 0 {
                assert(items.drop_first()[i - 1] == items[i]);
            }
        }
    }
}

/// Carriage return, line feed: the line terminator of the protocol.
pub open spec fn crlf() -> Seq<u8> {
    seq![13u8, 10u8]
}

/// A value the codec can frame unambiguously: status and error lines
/// must not contain the line terminator bytes themselves, and
/// length-prefixed payloads must fit the machine's length words.
pub open spec fn valid_model(m: ReplyModel) -> bool
    decreases m,
{
    match m {
        ReplyModel::Status(s) => forall|i: int| 0 <= i < s.len() ==> s[i] != 13 && s[i] != 10,
        ReplyModel::Error(s) => forall|i: int| 0 <= i < s.len() ==> s[i] != 13 && s[i] != 10,
        ReplyModel::Bulk(b) => b.len() <= u64::MAX,
        ReplyModel::Null => true,
        ReplyModel::Array(items) => items.len() <= u64::MAX && forall|i: int|
            0 <= i < items.len() ==> valid_model(#[trigger] items[i]),
    }
}

/// The bytes that encode `m`.
pub open spec fn spec_encode(m: ReplyModel) -> Seq<u8>
    decreases m,
{
    match m {
        ReplyModel::Status(s) => seq![43u8] + s + crlf(),
        ReplyModel::Error(s) => seq![45u8] + s + crlf(),
        ReplyModel::Bulk(b) => seq![36u8] + dec_digits(b.len()) + crlf() + b + crlf(),
        ReplyModel::Null => seq![36u8, 45u8, 49u8] + crlf(),
        ReplyModel::Array(items) => seq![42u8] + dec_digits(items.len()) + crlf()
            + spec_encode_seq(items),
    }
}

/// The concatenated encodings of a sequence of values.
pub open spec fn spec_encode_seq(items: Seq<ReplyModel>) -> Seq<u8>
    decreases items,
{
    if items.len() == 0 {
        Seq::empty()
    } else {
        spec_encode(items[0]) + spec_encode_seq(items.drop_first())
    }
}

/// Splitting a prefix off `spec_encode_seq`: one more element appends
/// its encoding.
pub proof fn lemma_encode_seq_take(items: Seq<ReplyModel>, i: int)
    requires
        0 <= i < items.len(),
    ensures
        spec_encode_seq(items.take(i + 1)) == spec_encode_seq(items.take(i))
            + spec_encode(items[i]),
    decreases i,
{
    if i == 0 {
        assert(items.take(1).drop_first() =~= Seq::<ReplyModel>::empty());
        assert(spec_encode_seq(Seq::<ReplyModel>::empty()) == Seq::<u8>::empty());
        assert(items.take(1)[0] == items[0]);
        assert(items.take(0) =~= Seq::<ReplyModel>::empty());
        assert(spec_encode_seq(items.take(1)) == spec_encode(items[0]) + Seq::<u8>::empty());
        assert(spec_encode(items[0]) + Seq::<u8>::empty() =~= spec_encode(items[0]));
        assert(spec_encode_seq(items.take(0)) + spec_encode(items[0]) =~= spec_encode(items[0]));
    } else {
        lemma_encode_seq_take(items.drop_first(), i - 1);
        assert(items.take(i + 1)[0] == items[0]);
        assert(items.take(i + 1).drop_first() =~= items.drop_first().take(i));
        assert(items.take(i)[0] == items[0]);
        assert(items.take(i).drop_first() =~= items.drop_first().take(i - 1));
        assert(items.drop_first()[i - 1] == items[i]);
        assert(spec_encode(items[0]) + (spec_encode_seq(items.drop_first().take(i - 1))
            + spec_encode(items[i])) =~= (spec_encode(items[0]) + spec_encode_seq(
            items.drop_first().take(i - 1),
        )) + spec_encode(items[i]));
    }
}

/// Append the encoding of `v` to `out`.
pub fn encode_into(v: &ReplyValue, out: &mut Vec<u8>)
    ensures
        final(out)@ == old(out)@ + spec_encode(v@),
    decreases *v,
{
    match v {
        ReplyValue::Status(s) => {
            out.push(43);
            let mut i: usize = 0;
            while i < s.len()
                invariant
                    i <= s.len(),
                    out@ =~= old(out)@ + seq![43u8] + s@.take(i as int),
                decreases s.len() - i,
            {
                out.push(s[i]);
                assert(out@ =~= old(out)@ + seq![43u8] + s@.take(i + 1));
                i = i + 1;
            }
            out.push(13);
            out.push(10);
            assert(s@.take(s@.len() as int) =~= s@);
            assert(out@ =~= old(out)@ + spec_encode(v@));
        },
        ReplyValue::Error(s) => {
            out.push(45);
            let mut i: usize = 0;
            while i < s.len()
                invariant
                    i <= s.len(),
                    out@ =~= old(out)@ + seq![45u8] + s@.take(i as int),
                decreases s.len() - i,
            {
                out.push(s[i]);
                assert(out@ =~= old(out)@ + seq![45u8] + s@.take(i + 1));
                i = i + 1;
            }
            out.push(13);
            out.push(10);
            assert(s@.take(s@.len() as int) =~= s@);
            assert(out@ =~= old(out)@ + spec_encode(v@));
        },
        ReplyValue::Bulk(b) => {
            out.push(36);
            crate::bytes::push_decimal(out, b.len() as u64);
            out.push(13);
            out.push(10);
            let ghost mid = out@;
            let mut i: usize = 0;
            while i < b.len()
                invariant
                    i <= b.len(),
                    out@ =~= mid + b@.take(i as int),
                decreases b.len() - i,
            {
                out.push(b[i]);
                assert(out@ =~= mid + b@.take(i + 1));
                i = i + 1;
            }
            out.push(13);
            out.push(10);
            assert(b@.take(b@.len() as int) =~= b@);
            assert(out@ =~= old(out)@ + spec_encode(v@));
        },
        ReplyValue::Null => {
            out.push(36);
            out.push(45);
            out.push(49);
            out.push(13);
            out.push(10);
            assert(out@ =~= old(out)@ + spec_encode(v@));
        },
        ReplyValue::Array(items) => {
            out.push(42);
            crate::bytes::push_decimal(out, items.len() as u64);
            out.push(13);
            out.push(10);
            let ghost mid = out@;
            let ghost ms = models_of(items@);
            proof {
                lemma_models_of(items@);
                assert(ms.take(0) =~= Seq::<ReplyModel>::empty());
            }
            let mut i: usize = 0;
            while i < items.len()
                invariant
                    i <= items.len(),
                    *v == ReplyValue::Array(*items),
                    ms == models_of(items@),
                    ms.len() == items@.len(),
                    forall|j: int| 0 <= j < items@.len() ==> ms[j] == model_of(
                        #[trigger] items@[j],
                    ),
                    out@ == mid + spec_encode_seq(ms.take(i as int)),
                decreases items.len() - i,
            {
                proof {
                    assert(decreases_to!(*v => v->Array_0));
                    assert(decreases_to!(v->Array_0 => items@[i as int]));
                    assert(decreases_to!(*v => items@[i as int]));
                }
                encode_into(&items[i], out);
                proof {
                    lemma_encode_seq_take(ms, i as int);
                    assert((mid + spec_encode_seq(ms.take(i as int))) + spec_encode(ms[i as int])
                        =~= mid + spec_encode_seq(ms.take(i + 1)));
                }
                i = i + 1;
            }
            assert(ms.take(ms.len() as int) =~= ms);
            assert(mid =~= old(out)@ + (seq![42u8] + dec_digits(items@.len()) + crlf()));
            assert(out@ =~= old(out)@ + spec_encode(v@));
        },
    }
}

/// Encode one value to a fresh byte vector.
pub fn encode(v: &ReplyValue) -> (r: Vec<u8>)
    ensures
        r@ == spec_encode(v@),
{
    let mut out: Vec<u8> = Vec::new();
    encode_into(v, &mut out);
    assert(Seq::<u8>::empty() + spec_encode(v@) =~= spec_encode(v@));
    out
}

/// What the decoder finds at a position: a complete value and the
/// position just past it, a need for more bytes, or malformed framing.
pub ghost enum SpecDecoded {
    Val(ReplyModel, int),
    Incomplete,
    Malformed,
}

/// What the decoder finds for a run of `n` consecutive values.
pub ghost enum SpecDecodedMany {
    Vals(Seq<ReplyModel>, int),
    Incomplete,
    Malformed,
}

/// Index of the first carriage return at or after `from`, or the buffer
/// length if there is none.
pub open spec fn find_cr(s: Seq<u8>, from: int) -> int
    decreases s.len() - from,
{
    if from < 0 || from >= s.len() {
        s.len() as int
    } else if s[from] == 13 {
        from
    } else {
        find_cr(s, from + 1)
    }
}

/// Index of the first non-digit byte at or after `from`, or the buffer
/// length if all remaining bytes are digits.
pub open spec fn scan_digits(s: Seq<u8>, from: int) -> int
    decreases s.len() - from,
{
    if from < 0 || from >= s.len() {
        s.len() as int
    } else if is_digit(s[from]) {
        scan_digits(s, from + 1)
    } else {
        from
    }
}

/// Both scanners stay between their starting point and the buffer end.
pub proof fn lemma_scan_bounds(s: Seq<u8>, from: int)
    requires
        0 <= from <= s.len(),
    ensures
        from <= scan_digits(s, from) <= s.len(),
        from <= find_cr(s, from) <= s.len(),
    decreases s.len() - from,
{
    if from < s.len() {
        lemma_scan_bounds(s, from + 1);
    }
}

/// Decode one value of the wire protocol at position `pos` of `s`.
pub open spec fn spec_decode_at(s: Seq<u8>, pos: int) -> SpecDecoded
    decreases s.len() - pos, 0int, 0int,
    via spec_decode_at_decreases
{
    if pos < 0 || pos >= s.len() {
        SpecDecoded::Incomplete
    } else if s[pos] == 43 || s[pos] == 45 {
        let cr = find_cr(s, pos + 1);
        if cr + 1 >= s.len() {
            SpecDecoded::Incomplete
        } else if s[cr + 1] != 10 {
            SpecDecoded::Malformed
        } else {
            let line = s.subrange(pos + 1, cr);
            if s[pos] == 43 {
                SpecDecoded::Val(ReplyModel::Status(line), cr + 2)
            } else {
                SpecDecoded::Val(ReplyModel::Error(line), cr + 2)
            }
        }
    } else if s[pos] == 36 {
        if pos + 1 >= s.len() {
            SpecDecoded::Incomplete
        } else if s[pos + 1] == 45 {
            // the null marker `$-1\r\n`
            if pos + 5 > s.len() {
                SpecDecoded::Incomplete
            } else if s[pos + 2] == 49 && s[pos + 3] == 13 && s[pos + 4] == 10 {
                SpecDecoded::Val(ReplyModel::Null, pos + 5)
            } else {
                SpecDecoded::Malformed
            }
        } else {
            let d = scan_digits(s, pos + 1);
            if d == pos + 1 {
                SpecDecoded::Malformed
            } else if d >= s.len() {
                SpecDecoded::Incomplete
            } else if s[d] != 13 {
                SpecDecoded::Malformed
            } else if d + 1 >= s.len() {
                SpecDecoded::Incomplete
            } else if s[d + 1] != 10 {
                SpecDecoded::Malformed
            } else if dec_val(s.subrange(pos + 1, d)) > u64::MAX {
                // a length that cannot fit in the machine word is not a
                // well-formed frame
                SpecDecoded::Malformed
            } else {
                let n = dec_val(s.subrange(pos + 1, d)) as int;
                if d + 2 + n + 2 > s.len() {
                    SpecDecoded::Incomplete
                } else if s[d + 2 + n] != 13 || s[d + 2 + n + 1] != 10 {
                    SpecDecoded::Malformed
                } else {
                    SpecDecoded::Val(ReplyModel::Bulk(s.subrange(d + 2, d + 2 + n)), d + 2 + n + 2)
                }
            }
        }
    } else if s[pos] == 42 {
        let d = scan_digits(s, pos + 1);
        if d == pos + 1 {
            SpecDecoded::Malformed
        } else if d >= s.len() {
            SpecDecoded::Incomplete
        } else if s[d] != 13 {
            SpecDecoded::Malformed
        } else if d + 1 >= s.len() {
            SpecDecoded::Incomplete
        } else if s[d + 1] != 10 {
            SpecDecoded::Malformed
        } else if dec_val(s.subrange(pos + 1, d)) > u64::MAX {
            SpecDecoded::Malformed
        } else {
            let n = dec_val(s.subrange(pos + 1, d)) as int;
            match spec_decode_many(s, d + 2, n) {
                SpecDecodedMany::Vals(vs, end) => SpecDecoded::Val(ReplyModel::Array(vs), end),
                SpecDecodedMany::Incomplete => SpecDecoded::Incomplete,
                SpecDecodedMany::Malformed => SpecDecoded::Malformed,
            }
        }
    } else {
        SpecDecoded::Malformed
    }
}

#[via_fn]
proof fn spec_decode_at_decreases(s: Seq<u8>, pos: int) {
    if 0 <= pos < s.len() {
        lemma_scan_bounds(s, pos + 1);
    }
}

/// Decode `n` consecutive values starting at position `pos` of `s`.
pub open spec fn spec_decode_many(s: Seq<u8>, pos: int, n: int) -> SpecDecodedMany
    decreases s.len() - pos, 1int, n,
{
    if pos < 0 || pos > s.len() {
        SpecDecodedMany::Malformed
    } else if n <= 0 {
        SpecDecodedMany::Vals(Seq::empty(), pos)
    } else {
        match spec_decode_at(s, pos) {
            SpecDecoded::Val(v, end) => if end <= pos || end > s.len() {
                SpecDecodedMany::Malformed
            } else {
                match spec_decode_many(s, end, n - 1) {
                    SpecDecodedMany::Vals(vs, e2) => SpecDecodedMany::Vals(seq![v] + vs, e2),
                    SpecDecodedMany::Incomplete => SpecDecodedMany::Incomplete,
                    SpecDecodedMany::Malformed => SpecDecodedMany::Malformed,
                }
            },
            SpecDecoded::Incomplete => SpecDecodedMany::Incomplete,
            SpecDecoded::Malformed => SpecDecodedMany::Malformed,
        }
    }
}

/// Skipping bytes without a carriage return does not change `find_cr`,
/// and skipping digit bytes does not change `scan_digits`.
pub proof fn lemma_scan_skip(s: Seq<u8>, from: int, k: int)
    requires
        0 <= from <= k <= s.len(),
    ensures
        (forall|j: int| from <= j < k ==> s[j] != 13) ==> find_cr(s, from) == find_cr(s, k),
        (forall|j: int| from <= j < k ==> is_digit(s[j])) ==> scan_digits(s, from) == scan_digits(
            s,
            k,
        ),
    decreases k - from,
{
    if from < k {
        lemma_scan_skip(s, from + 1, k);
    }
}

/// Find the first carriage return at or after `from`.
fn find_cr_exec(buf: &Vec<u8>, from: usize) -> (r: usize)
    requires
        from <= buf@.len(),
    ensures
        r as int == find_cr(buf@, from as int),
        from <= r <= buf@.len(),
{
    let mut i: usize = from;
    while i < buf.len()
        invariant
            from <= i <= buf@.len(),
            forall|j: int| from <= j < i ==> buf@[j] != 13,
        decreases buf@.len() - i,
    {
        if buf[i] == 13 {
            proof {
                lemma_scan_skip(buf@, from as int, i as int);
            }
            return i;
        }
        i = i + 1;
    }
    proof {
        lemma_scan_skip(buf@, from as int, i as int);
    }
    i
}

/// Find the first non-digit byte at or after `from`.
fn scan_digits_exec(buf: &Vec<u8>, from: usize) -> (r: usize)
    requires
        from <= buf@.len(),
    ensures
        r as int == scan_digits(buf@, from as int),
        from <= r <= buf@.len(),
        forall|j: int| from <= j < r ==> is_digit(buf@[j]),
{
    let mut i: usize = from;
    while i < buf.len()
        invariant
            from <= i <= buf@.len(),
            forall|j: int| from <= j < i ==> is_digit(buf@[j]),
        decreases buf@.len() - i,
    {
        let b = buf[i];
        if b < 48 || b > 57 {
            proof {
                lemma_scan_skip(buf@, from as int, i as int);
            }
            return i;
        }
        i = i + 1;
    }
    proof {
        lemma_scan_skip(buf@, from as int, i as int);
    }
    i
}

/// Evaluate the decimal digits in `buf[from..to]`; `None` when the value
/// exceeds `u64::MAX`.
fn dec_val_range(buf: &Vec<u8>, from: usize, to: usize) -> (r: Option<u64>)
    requires
        from <= to <= buf@.len(),
        forall|j: int| from <= j < to ==> is_digit(buf@[j]),
    ensures
        match r {
            Some(v) => v as nat == dec_val(buf@.subrange(from as int, to as int)),
            None => dec_val(buf@.subrange(from as int, to as int)) > u64::MAX,
        },
{
    let mut acc: u64 = 0;
    let mut i: usize = from;
    let mut overflow: bool = false;
    while i < to
        invariant
            from <= i <= to <= buf@.len(),
            forall|j: int| from <= j < to ==> is_digit(buf@[j]),
            !overflow ==> acc as nat == dec_val(buf@.subrange(from as int, i as int)),
            overflow ==> dec_val(buf@.subrange(from as int, i as int)) > u64::MAX,
        decreases to - i,
    {
        let b = buf[i];
        let d = b - 48;
        proof {
            assert(buf@.subrange(from as int, i + 1) =~= buf@.subrange(
                from as int,
                i as int,
            ).push(buf@[i as int]));
            crate::bytes::lemma_dec_val_push(buf@.subrange(from as int, i as int), buf@[i as int]);
        }
        if overflow {
            proof {
                crate::bytes::lemma_dec_val_monotone(
                    buf@.subrange(from as int, i as int),
                    buf@[i as int],
                );
            }
        } else if acc > (u64::MAX - (d as u64)) / 10 {
            proof {
                assert(acc as nat * 10 + d > u64::MAX) by (nonlinear_arith)
                    requires
                        acc > (u64::MAX - (d as u64)) / 10,
                        d < 10,
                ;
            }
            overflow = true;
        } else {
            proof {
                assert(acc as nat * 10 + d <= u64::MAX) by (nonlinear_arith)
                    requires
                        acc <= (u64::MAX - (d as u64)) / 10,
                        d < 10,
                ;
            }
            acc = acc * 10 + (d as u64);
        }
        i = i + 1;
    }
    if overflow {
        None
    } else {
        Some(acc)
    }
}

/// Copy `buf[from..to]` into a fresh vector.
fn copy_range(buf: &Vec<u8>, from: usize, to: usize) -> (r: Vec<u8>)
    requires
        from <= to <= buf@.len(),
    ensures
        r@ == buf@.subrange(from as int, to as int),
{
    let mut out: Vec<u8> = Vec::new();
    let mut i: usize = from;
    while i < to
        invariant
            from <= i <= to <= buf@.len(),
            out@ =~= buf@.subrange(from as int, i as int),
        decreases to - i,
    {
        out.push(buf[i]);
        assert(out@ =~= buf@.subrange(from as int, i + 1));
        i = i + 1;
    }
    out
}

/// One step of the decoder: a complete value and the position just past
/// it, a need for more bytes, or malformed framing.
pub enum DecodeStep {
    Value(ReplyValue, usize),
    Incomplete,
    Malformed,
}

/// The decoder's verdict on a run of consecutive values.
enum DecodeManyStep {
    Values(Vec<ReplyValue>, usize),
    Incomplete,
    Malformed,
}

/// Decode one protocol value at position `pos` of `buf`.
pub fn decode_at(buf: &Vec<u8>, pos: usize) -> (r: DecodeStep)
    requires
        pos <= buf@.len(),
    ensures
        match r {
            DecodeStep::Value(v, end) => spec_decode_at(buf@, pos as int) == SpecDecoded::Val(
                v@,
                end as int,
            ) && pos < end <= buf@.len(),
            DecodeStep::Incomplete => spec_decode_at(buf@, pos as int) is Incomplete,
            DecodeStep::Malformed => spec_decode_at(buf@, pos as int) is Malformed,
        },
    decreases buf@.len() - pos, 0int, 0int,
{
    if pos >= buf.len() {
        return DecodeStep::Incomplete;
    }
    let tag = buf[pos];
    if tag == 43 || tag == 45 {
        let cr = find_cr_exec(buf, pos + 1);
        if cr >= buf.len() || cr + 1 >= buf.len() {
            return DecodeStep::Incomplete;
        }
        if buf[cr + 1] != 10 {
            return DecodeStep::Malformed;
        }
        let line = copy_range(buf, pos + 1, cr);
        if tag == 43 {
            DecodeStep::Value(ReplyValue::Status(line), cr + 2)
        } else {
            DecodeStep::Value(ReplyValue::Error(line), cr + 2)
        }
    } else if tag == 36 {
        if pos + 1 >= buf.len() {
            return DecodeStep::Incomplete;
        }
        if buf[pos + 1] == 45 {
            if buf.len() - pos < 5 {
                return DecodeStep::Incomplete;
            }
            if buf[pos + 2] == 49 && buf[pos + 3] == 13 && buf[pos + 4] == 10 {
                DecodeStep::Value(ReplyValue::Null, pos + 5)
            } else {
                DecodeStep::Malformed
            }
        } else {
            let d = scan_digits_exec(buf, pos + 1);
            if d == pos + 1 {
                return DecodeStep::Malformed;
            }
            if d >= buf.len() {
                return DecodeStep::Incomplete;
            }
            if buf[d] != 13 {
                return DecodeStep::Malformed;
            }
            if d + 1 >= buf.len() {
                return DecodeStep::Incomplete;
            }
            if buf[d + 1] != 10 {
                return DecodeStep::Malformed;
            }
            let n = match dec_val_range(buf, pos + 1, d) {
                Some(n) => n,
                None => {
                    return DecodeStep::Malformed;
                },
            };
            let remaining = buf.len() - (d + 2);
            if remaining < 2 || n > (remaining - 2) as u64 {
                return DecodeStep::Incomplete;
            }
            let nu = n as usize;
            if buf[d + 2 + nu] != 13 || buf[d + 2 + nu + 1] != 10 {
                return DecodeStep::Malformed;
            }
            let payload = copy_range(buf, d + 2, d + 2 + nu);
            DecodeStep::Value(ReplyValue::Bulk(payload), d + 2 + nu + 2)
        }
    } else if tag == 42 {
        let d = scan_digits_exec(buf, pos + 1);
        if d == pos + 1 {
            return DecodeStep::Malformed;
        }
        if d >= buf.len() {
            return DecodeStep::Incomplete;
        }
        if buf[d] != 13 {
            return DecodeStep::Malformed;
        }
        if d + 1 >= buf.len() {
            return DecodeStep::Incomplete;
        }
        if buf[d + 1] != 10 {
            return DecodeStep::Malformed;
        }
        let n = match dec_val_range(buf, pos + 1, d) {
            Some(n) => n,
            None => {
                return DecodeStep::Malformed;
            },
        };
        match decode_many(buf, d + 2, n) {
            DecodeManyStep::Values(items, end) => {
                proof {
                    lemma_models_of(items@);
                }
                DecodeStep::Value(ReplyValue::Array(items), end)
            },
            DecodeManyStep::Incomplete => DecodeStep::Incomplete,
            DecodeManyStep::Malformed => DecodeStep::Malformed,
        }
    } else {
        DecodeStep::Malformed
    }
}

/// Decode `n` consecutive protocol values starting at `pos`.
fn decode_many(buf: &Vec<u8>, pos: usize, n: u64) -> (r: DecodeManyStep)
    requires
        pos <= buf@.len(),
    ensures
        match r {
            DecodeManyStep::Values(vs, end) => spec_decode_many(buf@, pos as int, n as int)
                == SpecDecodedMany::Vals(models_of(vs@), end as int) && pos <= end <= buf@.len(),
            DecodeManyStep::Incomplete => spec_decode_many(buf@, pos as int, n as int)
                is Incomplete,
            DecodeManyStep::Malformed => spec_decode_many(buf@, pos as int, n as int) is Malformed,
        },
    decreases buf@.len() - pos, 1int, n as int,
{
    if n == 0 {
        assert(models_of(Seq::<ReplyValue>::empty()) == Seq::<ReplyModel>::empty());
        return DecodeManyStep::Values(Vec::new(), pos);
    }
    match decode_at(buf, pos) {
        DecodeStep::Value(v, end) => {
            match decode_many(buf, end, n - 1) {
                DecodeManyStep::Values(mut vs, e2) => {
                    let ghost tail = vs@;
                    vs.insert(0, v);
                    proof {
                        assert(vs@ =~= seq![v] + tail);
                        lemma_models_of(vs@);
                        lemma_models_of(tail);
                        assert forall|j: int| 0 <= j < vs@.len() implies models_of(vs@)[j] == (
                        seq![v@] + models_of(tail))[j] by {
                            if j > 0 {
                                assert(vs@[j] == tail[j - 1]);
                            }
                        }
                        assert(models_of(vs@) =~= seq![v@] + models_of(tail));
                    }
                    DecodeManyStep::Values(vs, e2)
                },
                DecodeManyStep::Incomplete => DecodeManyStep::Incomplete,
                DecodeManyStep::Malformed => DecodeManyStep::Malformed,
            }
        },
        DecodeStep::Incomplete => DecodeManyStep::Incomplete,
        DecodeStep::Malformed => DecodeManyStep::Malformed,
    }
}

/// The outcome of reading one value from a request buffer: a value and
/// the position just past it, a clean end of stream at a value boundary,
/// a need for more bytes, or malformed framing.
pub enum DecodeResult {
    Value(ReplyValue, usize),
    EndOfStream,
    NeedMore,
    Malformed,
}

/// Read one protocol value from `buf` at `pos`. Reports `EndOfStream`
/// exactly when no byte is available at `pos`; `NeedMore` when bytes are
/// present but do not yet hold one complete value.
pub fn decode(buf: &Vec<u8>, pos: usize) -> (r: DecodeResult)
    requires
        pos <= buf@.len(),
    ensures
        match r {
            DecodeResult::Value(v, end) => spec_decode_at(buf@, pos as int) == SpecDecoded::Val(
                v@,
                end as int,
            ) && pos < end <= buf@.len(),
            DecodeResult::EndOfStream => pos == buf@.len(),
            DecodeResult::NeedMore => pos < buf@.len() && spec_decode_at(buf@, pos as int)
                is Incomplete,
            DecodeResult::Malformed => spec_decode_at(buf@, pos as int) is Malformed,
        },
{
    if pos >= buf.len() {
        return DecodeResult::EndOfStream;
    }
    match decode_at(buf, pos) {
        DecodeStep::Value(v, end) => DecodeResult::Value(v, end),
        DecodeStep::Incomplete => DecodeResult::NeedMore,
        DecodeStep::Malformed => DecodeResult::Malformed,
    }
}

/// Every encoding takes at least three bytes.
pub proof fn lemma_encode_len(m: ReplyModel)
    ensures
        spec_encode(m).len() >= 3,
{
    match m {
        ReplyModel::Bulk(b) => {
            crate::bytes::lemma_dec_digits_are_digits(b.len());
        },
        ReplyModel::Array(items) => {
            crate::bytes::lemma_dec_digits_are_digits(items.len());
        },
        _ => {},
    }
}

/// One byte of an encoding standing inside a larger buffer.
proof fn lemma_enc_byte(s: Seq<u8>, pos: int, m: ReplyModel, k: int)
    requires
        0 <= pos,
        pos + spec_encode(m).len() <= s.len(),
        forall|i: int| 0 <= i < spec_encode(m).len() ==> s[pos + i] == #[trigger] spec_encode(
            m,
        )[i],
        0 <= k < spec_encode(m).len(),
    ensures
        s[pos + k] == spec_encode(m)[k],
{
    assert(s[pos + k] == spec_encode(m)[k]);
}

/// Decoding inverts encoding: at a position where the bytes of
/// `spec_encode(m)` stand, the decoder yields exactly `m` and stops just
/// past them.
pub proof fn lemma_decode_encode(s: Seq<u8>, pos: int, m: ReplyModel)
    requires
        valid_model(m),
        0 <= pos,
        pos + spec_encode(m).len() <= s.len(),
        forall|i: int| 0 <= i < spec_encode(m).len() ==> s[pos + i] == #[trigger] spec_encode(
            m,
        )[i],
    ensures
        spec_decode_at(s, pos) == SpecDecoded::Val(m, pos + spec_encode(m).len()),
    decreases m,
{
    let enc = spec_encode(m);
    match m {
        ReplyModel::Status(line) => {
            let a = seq![43u8];
            let le = line.len() as int;
            assert(enc == a + line + crlf());
            proof_line_case(s, pos, m, a, line);
        },
        ReplyModel::Error(line) => {
            let a = seq![45u8];
            let le = line.len() as int;
            assert(enc == a + line + crlf());
            proof_line_case(s, pos, m, a, line);
        },
        ReplyModel::Null => {
            let a = seq![36u8, 45u8, 49u8];
            assert(enc == a + crlf());
            assert((a + crlf())[0] == 36 && (a + crlf())[1] == 45 && (a + crlf())[2] == 49 && (a
                + crlf())[3] == 13 && (a + crlf())[4] == 10);
            lemma_enc_byte(s, pos, m, 0);
            lemma_enc_byte(s, pos, m, 1);
            lemma_enc_byte(s, pos, m, 2);
            lemma_enc_byte(s, pos, m, 3);
            lemma_enc_byte(s, pos, m, 4);
            assert(s[pos + 0] == 36 && s[pos + 1] == 45 && s[pos + 2] == 49 && s[pos + 3] == 13
                && s[pos + 4] == 10);
            assert(spec_decode_at(s, pos) == SpecDecoded::Val(m, pos + 5));
        },
        ReplyModel::Bulk(b) => {
            let a = seq![36u8];
            let dd = dec_digits(b.len());
            let ld = dd.len() as int;
            let lb = b.len() as int;
            crate::bytes::lemma_dec_digits_are_digits(b.len());
            crate::bytes::lemma_dec_val_of_digits(b.len());
            let cat = a + dd + crlf() + b + crlf();
            assert(enc == cat);
            lemma_enc_byte(s, pos, m, 0);
            assert(cat[0] == 36);
            assert(s[pos + 0] == 36);
            assert forall|j: int| pos + 1 <= j < pos + 1 + ld implies is_digit(s[j]) by {
                lemma_enc_byte(s, pos, m, j - pos);
                assert(cat[j - pos] == dd[j - pos - 1]);
                assert(s[pos + (j - pos)] == dd[j - pos - 1]);
            }
            lemma_enc_byte(s, pos, m, 1);
            assert(cat[1] == dd[0]);
            assert(s[pos + 1] == dd[0]);
            assert(s[pos + 1] != 45);
            lemma_enc_byte(s, pos, m, 1 + ld);
            assert(cat[1 + ld] == 13);
            assert(s[pos + (1 + ld)] == 13);
            lemma_scan_skip(s, pos + 1, pos + 1 + ld);
            let d = pos + 1 + ld;
            assert(scan_digits(s, pos + 1) == d);
            assert(d != pos + 1);
            lemma_enc_byte(s, pos, m, 2 + ld);
            assert(cat[2 + ld] == 10);
            assert(s[pos + (2 + ld)] == 10);
            assert(s.subrange(pos + 1, d) =~= dd) by {
                assert forall|i: int| 0 <= i < ld implies s.subrange(pos + 1, d)[i] == dd[i] by {
                    lemma_enc_byte(s, pos, m, 1 + i);
                    assert(cat[1 + i] == dd[i]);
                    assert(s[pos + (1 + i)] == dd[i]);
                }
            }
            assert(dec_val(s.subrange(pos + 1, d)) == b.len());
            assert(s.subrange(d + 2, d + 2 + lb) =~= b) by {
                assert forall|i: int| 0 <= i < lb implies s.subrange(d + 2, d + 2 + lb)[i] == b[i]
                by {
                    lemma_enc_byte(s, pos, m, 3 + ld + i);
                    assert(cat[3 + ld + i] == b[i]);
                    assert(s[pos + (3 + ld + i)] == b[i]);
                }
            }
            lemma_enc_byte(s, pos, m, 3 + ld + lb);
            assert(cat[3 + ld + lb] == 13);
            assert(s[pos + (3 + ld + lb)] == 13);
            lemma_enc_byte(s, pos, m, 4 + ld + lb);
            assert(cat[4 + ld + lb] == 10);
            assert(s[pos + (4 + ld + lb)] == 10);
            assert(spec_decode_at(s, pos) == SpecDecoded::Val(m, pos + enc.len()));
        },
        ReplyModel::Array(items) => {
            let a = seq![42u8];
            let dd = dec_digits(items.len());
            let ld = dd.len() as int;
            let tail = spec_encode_seq(items);
            let lt = tail.len() as int;
            crate::bytes::lemma_dec_digits_are_digits(items.len());
            crate::bytes::lemma_dec_val_of_digits(items.len());
            let cat = a + dd + crlf() + tail;
            assert(enc == cat);
            lemma_enc_byte(s, pos, m, 0);
            assert(cat[0] == 42);
            assert(s[pos + 0] == 42);
            assert forall|j: int| pos + 1 <= j < pos + 1 + ld implies is_digit(s[j]) by {
                lemma_enc_byte(s, pos, m, j - pos);
                assert(cat[j - pos] == dd[j - pos - 1]);
                assert(s[pos + (j - pos)] == dd[j - pos - 1]);
            }
            lemma_enc_byte(s, pos, m, 1 + ld);
            assert(cat[1 + ld] == 13);
            assert(s[pos + (1 + ld)] == 13);
            lemma_scan_skip(s, pos + 1, pos + 1 + ld);
            let d = pos + 1 + ld;
            assert(scan_digits(s, pos + 1) == d);
            assert(d != pos + 1);
            lemma_enc_byte(s, pos, m, 2 + ld);
            assert(cat[2 + ld] == 10);
            assert(s[pos + (2 + ld)] == 10);
            assert(s.subrange(pos + 1, d) =~= dd) by {
                assert forall|i: int| 0 <= i < ld implies s.subrange(pos + 1, d)[i] == dd[i] by {
                    lemma_enc_byte(s, pos, m, 1 + i);
                    assert(cat[1 + i] == dd[i]);
                    assert(s[pos + (1 + i)] == dd[i]);
                }
            }
            assert(dec_val(s.subrange(pos + 1, d)) == items.len());
            assert forall|i: int| 0 <= i < lt implies s[d + 2 + i] == tail[i] by {
                lemma_enc_byte(s, pos, m, 3 + ld + i);
                assert(cat[3 + ld + i] == tail[i]);
                assert(s[pos + (3 + ld + i)] == tail[i]);
            }
            lemma_decode_encode_seq(s, d + 2, items);
            assert(spec_decode_many(s, d + 2, items.len() as int) == SpecDecodedMany::Vals(
                items,
                d + 2 + lt,
            ));
            assert(spec_decode_at(s, pos) == SpecDecoded::Val(m, pos + enc.len()));
        },
    }
}

/// The shared shape of the status and error cases of
/// `lemma_decode_encode`: a one-byte tag, a terminator-free line, and the
/// line terminator.
proof fn proof_line_case(s: Seq<u8>, pos: int, m: ReplyModel, a: Seq<u8>, line: Seq<u8>)
    requires
        0 <= pos,
        a.len() == 1,
        a[0] == 43 || a[0] == 45,
        m == if a[0] == 43 {
            ReplyModel::Status(line)
        } else {
            ReplyModel::Error(line)
        },
        spec_encode(m) == a + line + crlf(),
        forall|i: int| 0 <= i < line.len() ==> line[i] != 13 && line[i] != 10,
        pos + spec_encode(m).len() <= s.len(),
        forall|i: int| 0 <= i < spec_encode(m).len() ==> s[pos + i] == #[trigger] spec_encode(
            m,
        )[i],
    ensures
        spec_decode_at(s, pos) == SpecDecoded::Val(m, pos + spec_encode(m).len()),
{
    let enc = spec_encode(m);
    let le = line.len() as int;
    let cat = a + line + crlf();
    assert(enc == cat);
    lemma_enc_byte(s, pos, m, 0);
    assert(cat[0] == a[0]);
    assert(s[pos + 0] == a[0]);
    assert forall|j: int| pos + 1 <= j < pos + 1 + le implies s[j] != 13 by {
        lemma_enc_byte(s, pos, m, j - pos);
        assert(cat[j - pos] == line[j - pos - 1]);
        assert(s[pos + (j - pos)] == line[j - pos - 1]);
    }
    lemma_enc_byte(s, pos, m, 1 + le);
    assert(cat[1 + le] == 13);
    assert(s[pos + (1 + le)] == 13);
    lemma_scan_skip(s, pos + 1, pos + 1 + le);
    let cr = pos + 1 + le;
    assert(find_cr(s, pos + 1) == cr);
    lemma_enc_byte(s, pos, m, 2 + le);
    assert(cat[2 + le] == 10);
    assert(s[pos + (2 + le)] == 10);
    assert(s.subrange(pos + 1, cr) =~= line) by {
        assert forall|i: int| 0 <= i < le implies s.subrange(pos + 1, cr)[i] == line[i] by {
            lemma_enc_byte(s, pos, m, 1 + i);
            assert(cat[1 + i] == line[i]);
            assert(s[pos + (1 + i)] == line[i]);
        }
    }
    assert(spec_decode_at(s, pos) == SpecDecoded::Val(m, pos + enc.len()));
}

/// Decoding inverts encoding for a run of values: where the bytes of
/// `spec_encode_seq(ms)` stand, decoding `ms.len()` values yields `ms`.
pub proof fn lemma_decode_encode_seq(s: Seq<u8>, pos: int, ms: Seq<ReplyModel>)
    requires
        forall|j: int| 0 <= j < ms.len() ==> valid_model(#[trigger] ms[j]),
        0 <= pos,
        pos + spec_encode_seq(ms).len() <= s.len(),
        forall|i: int| 0 <= i < spec_encode_seq(ms).len() ==> s[pos + i] == spec_encode_seq(
            ms,
        )[i],
    ensures
        spec_decode_many(s, pos, ms.len() as int) == SpecDecodedMany::Vals(
            ms,
            pos + spec_encode_seq(ms).len(),
        ),
    decreases ms,
{
    if ms.len() == 0 {
        assert(spec_decode_many(s, pos, 0) == SpecDecodedMany::Vals(Seq::<ReplyModel>::empty(), pos));
        assert(ms =~= Seq::<ReplyModel>::empty());
    } else {
        let head = ms[0];
        let rest = ms.drop_first();
        let e0 = spec_encode(head);
        let etail = spec_encode_seq(rest);
        assert(spec_encode_seq(ms) == e0 + etail);
        lemma_encode_len(head);
        assert forall|i: int| 0 <= i < e0.len() implies s[pos + i] == e0[i] by {
            assert(s[pos + i] == (e0 + etail)[i]);
        }
        lemma_decode_encode(s, pos, head);
        let end = pos + e0.len();
        assert(spec_decode_at(s, pos) == SpecDecoded::Val(head, end));
        assert forall|i: int| 0 <= i < etail.len() implies s[end + i] == etail[i] by {
            assert(s[pos + (e0.len() + i)] == (e0 + etail)[e0.len() + i]);
        }
        assert forall|j: int| 0 <= j < rest.len() implies valid_model(#[trigger] rest[j]) by {
            assert(rest[j] == ms[j + 1]);
        }
        lemma_decode_encode_seq(s, end, rest);
        assert(spec_decode_many(s, end, rest.len() as int) == SpecDecodedMany::Vals(
            rest,
            end + etail.len(),
        ));
        assert(seq![head] + rest =~= ms);
        assert(spec_decode_many(s, pos, ms.len() as int) == SpecDecodedMany::Vals(
            ms,
            pos + spec_encode_seq(ms).len(),
        ));
    }
}

/// Round trip: decoding the encoding of any framable value, with any
/// trailing bytes behind it, yields that value back and consumes exactly
/// its encoding.
pub proof fn lemma_round_trip(m: ReplyModel, rest: Seq<u8>)
    requires
        valid_model(m),
    ensures
        spec_decode_at(spec_encode(m) + rest, 0) == SpecDecoded::Val(
            m,
            spec_encode(m).len() as int,
        ),
{
    let s = spec_encode(m) + rest;
    assert forall|i: int| 0 <= i < spec_encode(m).len() implies s[0 + i] == spec_encode(m)[i] by {
        assert((spec_encode(m) + rest)[i] == spec_encode(m)[i]);
    }
    lemma_decode_encode(s, 0, m);
}

} // verus!
