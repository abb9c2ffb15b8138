//! Mathematical model of RESP frames: what a frame is, how it is written on
//! the wire, and how a byte sequence is read back into a frame.
use vstd::prelude::*;

verus! {

broadcast use vstd::seq::group_seq_axioms;

/// A RESP value, independent of how it is stored in memory.
pub enum Frame {
    Nil,
    Array(Seq<Frame>),
    Bulk(Seq<u8>),
    Simple(Seq<u8>),
    Error(Seq<u8>),
    Integer(int),
}

pub open spec fn digit_char(d: nat) -> u8 {
    (48 + d % 10) as u8
}

/// Base-10 digits of a natural number, most significant first, without leading zeros.
pub open spec fn digits(n: nat) -> Seq<u8>
    decreases n,
{
    if n < 10 {
        seq![digit_char(n)]
    } else {
        digits(n / 10).push(digit_char(n % 10))
    }
}

/// Base-10 text of an integer, with a leading `-` when it is negative.
pub open spec fn decimal(v: int) -> Seq<u8> {
    if v < 0 {
        seq![45u8] + digits((-v) as nat)
    } else {
        digits(v as nat)
    }
}

pub open spec fn crlf() -> Seq<u8> {
    seq![13u8, 10u8]
}

/// A header line: a type byte, a decimal number and CR LF.
pub open spec fn header(tag: u8, n: int) -> Seq<u8> {
    seq![tag] + decimal(n) + crlf()
}

/// The wire bytes of a frame.
pub open spec fn frame_bytes(f: Frame) -> Seq<u8>
    decreases f,
{
    match f {
        Frame::Nil => header(36u8, -1),
        Frame::Array(items) => header(42u8, items.len() as int) + items_bytes(items),
        Frame::Bulk(b) => header(36u8, b.len() as int) + b + crlf(),
        Frame::Simple(t) => seq![43u8] + t + crlf(),
        Frame::Error(t) => seq![45u8] + t + crlf(),
        Frame::Integer(v) => header(58u8, v),
    }
}

/// The wire bytes of a sequence of frames, one after the other.
pub open spec fn items_bytes(items: Seq<Frame>) -> Seq<u8>
    decreases items,
{
    if items.len() == 0 {
        Seq::empty()
    } else {
        frame_bytes(items[0]) + items_bytes(items.subrange(1, items.len() as int))
    }
}


pub open spec fn is_digit(b: u8) -> bool {
    48 <= b <= 57
}

pub open spec fn all_digits(s: Seq<u8>) -> bool {
    forall|i: int| 0 <= i < s.len() ==> is_digit(#[trigger] s[i])
}

/// The number that a sequence of decimal digits spells.
pub open spec fn digits_value(s: Seq<u8>) -> nat
    decreases s.len(),
{
    if s.len() == 0 {
        0
    } else {
        digits_value(s.drop_last()) * 10 + (s.last() - 48) as nat
    }
}

/// Digits without a sign, read as a signed 64-bit value.
pub open spec fn unsigned_of(d: Seq<u8>) -> Option<int> {
    if d.len() > 0 && all_digits(d) && digits_value(d) <= i64::MAX {
        Some(digits_value(d) as int)
    } else {
        None
    }
}

/// A decimal integer with an optional `+` or `-` sign that fits in a signed
/// 64-bit value; `None` for anything else. This is what `btoi` reads.
pub open spec fn signed_of(s: Seq<u8>) -> Option<int> {
    if s.len() == 0 {
        None
    } else if s[0] == 43 {
        unsigned_of(s.drop_first())
    } else if s[0] == 45 {
        let d = s.drop_first();
        if d.len() > 0 && all_digits(d) && digits_value(d) <= i64::MAX + 1 {
            Some(-(digits_value(d) as int))
        } else {
            None
        }
    } else {
        unsigned_of(s)
    }
}

/// A decimal integer of the wire: an optional `-` sign and at least one
/// digit, that fits in a signed 64-bit value; `None` for anything else.
pub open spec fn int_of(s: Seq<u8>) -> Option<int> {
    if s.len() > 0 && s[0] == 43 {
        None
    } else {
        signed_of(s)
    }
}

/// Outcome of reading from position `i` of a byte sequence.
pub enum Step<T> {
    /// The bytes end before the value does.
    Incomplete,
    /// The bytes cannot start a valid value.
    Invalid,
    /// A value, and the position just after it.
    Done(int, T),
}

/// Position of the first CR LF pair at or after `i`.
pub open spec fn line_end(s: Seq<u8>, i: int) -> Option<int>
    decreases s.len() - i,
{
    if i < 0 || i + 1 >= s.len() {
        None
    } else if s[i] == 13 && s[i + 1] == 10 {
        Some(i)
    } else {
        line_end(s, i + 1)
    }
}

/// A line from `i` that holds a decimal integer.
pub open spec fn parse_number(s: Seq<u8>, i: int) -> Step<int> {
    match line_end(s, i) {
        None => Step::Incomplete,
        Some(j) => match int_of(s.subrange(i, j)) {
            None => Step::Invalid,
            Some(v) => Step::Done(j + 2, v),
        },
    }
}

/// Text that a simple string or an error line may hold.
pub open spec fn valid_text(t: Seq<u8>) -> bool {
    &&& vstd::utf8::valid_utf8(t)
    &&& forall|k: int| 0 <= k < t.len() ==> #[trigger] t[k] != 13 && t[k] != 10
}

/// A text line from `i`, for a simple string or an error.
pub open spec fn parse_text(s: Seq<u8>, i: int) -> Step<Seq<u8>> {
    match line_end(s, i) {
        None => Step::Incomplete,
        Some(j) => {
            let t = s.subrange(i, j);
            if valid_text(t) {
                Step::Done(j + 2, t)
            } else {
                Step::Invalid
            }
        },
    }
}

/// The body of a bulk string whose header ends at `p` and announces `n` bytes.
pub open spec fn parse_bulk_body(s: Seq<u8>, p: int, n: int) -> Step<Frame> {
    if n == -1 {
        Step::Done(p, Frame::Nil)
    } else if n < 0 {
        Step::Invalid
    } else if p + n + 2 > s.len() {
        Step::Incomplete
    } else if s[p + n] != 13 || s[p + n + 1] != 10 {
        Step::Invalid
    } else {
        Step::Done(p + n + 2, Frame::Bulk(s.subrange(p, p + n)))
    }
}

/// A bulk string whose header starts at `j`, just after the `$`.
pub open spec fn parse_bulk(s: Seq<u8>, j: int) -> Step<Frame> {
    match parse_number(s, j) {
        Step::Incomplete => Step::Incomplete,
        Step::Invalid => Step::Invalid,
        Step::Done(p, n) => parse_bulk_body(s, p, n),
    }
}

/// An array whose header starts at `j`, just after the `*`.
pub open spec fn parse_array(s: Seq<u8>, j: int) -> Step<Frame>
    decreases s.len() - j, 2int,
{
    match parse_number(s, j) {
        Step::Incomplete => Step::Incomplete,
        Step::Invalid => Step::Invalid,
        Step::Done(p, n) => if n == -1 {
            Step::Done(p, Frame::Nil)
        } else if n < 0 {
            Step::Invalid
        } else if p <= j || p > s.len() {
            Step::Invalid
        } else {
            match parse_items(s, p, n) {
                Step::Incomplete => Step::Incomplete,
                Step::Invalid => Step::Invalid,
                Step::Done(q, items) => Step::Done(q, Frame::Array(items)),
            }
        },
    }
}

/// An integer line that starts at `j`, just after the `:`.
pub open spec fn parse_integer(s: Seq<u8>, j: int) -> Step<Frame> {
    match parse_number(s, j) {
        Step::Incomplete => Step::Incomplete,
        Step::Invalid => Step::Invalid,
        Step::Done(p, v) => Step::Done(p, Frame::Integer(v)),
    }
}

/// A simple string that starts at `j`, just after the `+`.
pub open spec fn parse_simple(s: Seq<u8>, j: int) -> Step<Frame> {
    match parse_text(s, j) {
        Step::Incomplete => Step::Incomplete,
        Step::Invalid => Step::Invalid,
        Step::Done(p, t) => Step::Done(p, Frame::Simple(t)),
    }
}

/// An error line that starts at `j`, just after the `-`.
pub open spec fn parse_error_line(s: Seq<u8>, j: int) -> Step<Frame> {
    match parse_text(s, j) {
        Step::Incomplete => Step::Incomplete,
        Step::Invalid => Step::Invalid,
        Step::Done(p, t) => Step::Done(p, Frame::Error(t)),
    }
}

/// The frame that starts at position `i` of `s`.
pub open spec fn parse_at(s: Seq<u8>, i: int) -> Step<Frame>
    decreases s.len() - i, 0int,
{
    if i < 0 || i >= s.len() {
        Step::Incomplete
    } else if s[i] == 36 {
        parse_bulk(s, i + 1)
    } else if s[i] == 42 {
        parse_array(s, i + 1)
    } else if s[i] == 58 {
        parse_integer(s, i + 1)
    } else if s[i] == 43 {
        parse_simple(s, i + 1)
    } else if s[i] == 45 {
        parse_error_line(s, i + 1)
    } else {
        Step::Invalid
    }
}

/// Puts `front` before the frames of a finished read.
pub open spec fn prepend(front: Seq<Frame>, st: Step<Seq<Frame>>) -> Step<Seq<Frame>> {
    match st {
        Step::Incomplete => Step::Incomplete,
        Step::Invalid => Step::Invalid,
        Step::Done(q, rest) => Step::Done(q, front + rest),
    }
}

/// `n` frames one after the other, from position `p` of `s`.
pub open spec fn parse_items(s: Seq<u8>, p: int, n: int) -> Step<Seq<Frame>>
    decreases s.len() - p, 1int,
{
    if n <= 0 {
        Step::Done(p, Seq::empty())
    } else if p < 0 || p >= s.len() {
        Step::Incomplete
    } else {
        match parse_at(s, p) {
            Step::Incomplete => Step::Incomplete,
            Step::Invalid => Step::Invalid,
            Step::Done(q, f) => if q <= p || q > s.len() {
                Step::Invalid
            } else {
                prepend(seq![f], parse_items(s, q, n - 1))
            },
        }
    }
}

/// A frame that can be written so that it reads back as itself: every
/// simple string and error line holds valid text.
pub open spec fn encodable(f: Frame) -> bool
    decreases f,
{
    match f {
        Frame::Simple(t) => valid_text(t),
        Frame::Error(t) => valid_text(t),
        Frame::Array(items) => all_encodable(items),
        _ => true,
    }
}

pub open spec fn all_encodable(items: Seq<Frame>) -> bool
    decreases items,
{
    if items.len() == 0 {
        true
    } else {
        encodable(items[0]) && all_encodable(items.subrange(1, items.len() as int))
    }
}

/// A frame with no Nil at any depth.
pub open spec fn nil_free(f: Frame) -> bool
    decreases f,
{
    match f {
        Frame::Nil => false,
        Frame::Array(items) => all_nil_free(items),
        _ => true,
    }
}

pub open spec fn all_nil_free(items: Seq<Frame>) -> bool
    decreases items,
{
    if items.len() == 0 {
        true
    } else {
        nil_free(items[0]) && all_nil_free(items.subrange(1, items.len() as int))
    }
}

pub proof fn lemma_nil_free_array(items: Seq<Frame>)
    ensures
        nil_free(Frame::Array(items)) <==> forall|k: int|
            0 <= k < items.len() ==> nil_free(#[trigger] items[k]),
    decreases items.len(),
{
    if items.len() > 0 {
        let rest = items.subrange(1, items.len() as int);
        lemma_nil_free_array(rest);
        assert(nil_free(Frame::Array(rest)) == all_nil_free(rest));
        if nil_free(Frame::Array(items)) {
            assert forall|k: int| 0 <= k < items.len() implies nil_free(#[trigger] items[k]) by {
                if k > 0 {
                    assert(items[k] == rest[k - 1]);
                }
            }
        }
        if forall|k: int| 0 <= k < items.len() ==> nil_free(#[trigger] items[k]) {
            assert forall|k: int| 0 <= k < rest.len() implies nil_free(#[trigger] rest[k]) by {
                assert(rest[k] == items[k + 1]);
            }
        }
    }
}

pub proof fn lemma_encodable_array(items: Seq<Frame>)
    ensures
        encodable(Frame::Array(items)) <==> forall|k: int|
            0 <= k < items.len() ==> encodable(#[trigger] items[k]),
    decreases items.len(),
{
    if items.len() > 0 {
        let rest = items.subrange(1, items.len() as int);
        lemma_encodable_array(rest);
        assert(encodable(Frame::Array(rest)) == all_encodable(rest));
        if encodable(Frame::Array(items)) {
            assert forall|k: int| 0 <= k < items.len() implies encodable(#[trigger] items[k]) by {
                if k > 0 {
                    assert(items[k] == rest[k - 1]);
                }
            }
        }
        if forall|k: int| 0 <= k < items.len() ==> encodable(#[trigger] items[k]) {
            assert forall|k: int| 0 <= k < rest.len() implies encodable(#[trigger] rest[k]) by {
                assert(rest[k] == items[k + 1]);
            }
        }
    }
}

pub proof fn lemma_items_bytes_concat(a: Seq<Frame>, b: Seq<Frame>)
    ensures
        items_bytes(a + b) == items_bytes(a) + items_bytes(b),
    decreases a.len(),
{
    if a.len() == 0 {
        assert(a + b =~= b);
    } else {
        let rest = a.subrange(1, a.len() as int);
        lemma_items_bytes_concat(rest, b);
        assert((a + b).subrange(1, (a + b).len() as int) =~= rest + b);
        assert((a + b)[0] == a[0]);
    }
}

pub proof fn lemma_items_bytes_push(a: Seq<Frame>, f: Frame)
    ensures
        items_bytes(a.push(f)) == items_bytes(a) + frame_bytes(f),
{
    lemma_items_bytes_concat(a, seq![f]);
    assert(a.push(f) =~= a + seq![f]);
    let one = seq![f];
    assert(one.subrange(1, 1) =~= Seq::<Frame>::empty());
    assert(items_bytes(Seq::<Frame>::empty()) == Seq::<u8>::empty());
    assert(items_bytes(one) == frame_bytes(one[0]) + items_bytes(one.subrange(1, 1)));
    assert(items_bytes(one) =~= frame_bytes(f));
}


pub proof fn lemma_digits(n: nat)
    ensures
        digits(n).len() > 0,
        all_digits(digits(n)),
        digits_value(digits(n)) == n,
    decreases n,
{
    if n < 10 {
        let d = digits(n);
        assert(d.drop_last() =~= Seq::<u8>::empty());
        assert(n % 10 == n);
        assert(digits_value(Seq::<u8>::empty()) == 0);
        assert(d.last() == (48 + n) as u8);
        assert(digits_value(d) == digits_value(d.drop_last()) * 10 + (d.last() - 48) as nat);
    } else {
        lemma_digits(n / 10);
        let d = digits(n);
        assert(d.drop_last() =~= digits(n / 10));
        assert((n % 10) % 10 == n % 10);
        assert(d.last() == (48 + n % 10) as u8);
        assert(n == (n / 10) * 10 + n % 10);
        assert(digits_value(d) == digits_value(digits(n / 10)) * 10 + (d.last() - 48) as nat);
        assert forall|i: int| 0 <= i < d.len() implies is_digit(#[trigger] d[i]) by {
            if i < d.len() - 1 {
                assert(d[i] == digits(n / 10)[i]);
            }
        }
    }
}

pub proof fn lemma_int_of_decimal(v: int)
    requires
        i64::MIN <= v <= i64::MAX,
    ensures
        int_of(decimal(v)) == Some(v),
        forall|k: int| 0 <= k < decimal(v).len() ==> #[trigger] decimal(v)[k] != 13 && decimal(v)[k] != 10,
        decimal(v).len() > 0,
{
    if v < 0 {
        let n = (-v) as nat;
        lemma_digits(n);
        assert(decimal(v).drop_first() =~= digits(n));
        assert forall|k: int| 0 <= k < decimal(v).len() implies #[trigger] decimal(v)[k] != 13 && decimal(v)[k] != 10 by {
            if k > 0 {
                assert(decimal(v)[k] == digits(n)[k - 1]);
            }
        }
    } else {
        lemma_digits(v as nat);
        assert(is_digit(digits(v as nat)[0]));
        assert forall|k: int| 0 <= k < decimal(v).len() implies #[trigger] decimal(v)[k] != 13 && decimal(v)[k] != 10 by {
            assert(is_digit(digits(v as nat)[k]));
        }
    }
}

pub proof fn lemma_line_end_at(s: Seq<u8>, i: int, j: int)
    requires
        0 <= i <= j,
        j + 1 < s.len(),
        s[j] == 13 && s[j + 1] == 10,
        forall|m: int| i <= m < j ==> #[trigger] s[m] != 13,
    ensures
        line_end(s, i) == Some(j),
    decreases j - i,
{
    if i < j {
        lemma_line_end_at(s, i + 1, j);
    }
}

pub proof fn lemma_line_end_none(s: Seq<u8>, i: int)
    requires
        0 <= i,
        forall|m: int| i <= m && m + 1 < s.len() ==> !(#[trigger] s[m] == 13 && s[m + 1] == 10),
    ensures
        line_end(s, i) is None,
    decreases s.len() - i,
{
    if i + 1 < s.len() {
        lemma_line_end_none(s, i + 1);
    }
}

/// A decimal line read back from where it was written.
pub proof fn lemma_parse_number(s: Seq<u8>, i: int, v: int)
    requires
        i64::MIN <= v <= i64::MAX,
        0 <= i,
        i + decimal(v).len() + 2 <= s.len(),
        s.subrange(i, i + decimal(v).len() + 2) == decimal(v) + crlf(),
    ensures
        parse_number(s, i) == Step::Done(i + decimal(v).len() + 2, v),
{
    let d = decimal(v);
    lemma_int_of_decimal(v);
    let j = i + d.len();
    assert forall|m: int| i <= m < j implies #[trigger] s[m] != 13 by {
        assert(s[m] == s.subrange(i, j + 2)[m - i]);
        assert(s.subrange(i, j + 2)[m - i] == d[m - i]);
    }
    assert(s[j] == s.subrange(i, j + 2)[d.len() as int]);
    assert(s[j + 1] == s.subrange(i, j + 2)[d.len() + 1int]);
    lemma_line_end_at(s, i, j);
    assert(s.subrange(i, j) =~= d) by {
        assert forall|m: int| 0 <= m < d.len() implies s.subrange(i, j)[m] == d[m] by {
            assert(s.subrange(i, j + 2)[m] == (d + crlf())[m]);
        }
    }
}


/// Frames whose lengths and integers fit the signed 64-bit numbers of the wire.
pub open spec fn wire_sized(f: Frame) -> bool
    decreases f,
{
    match f {
        Frame::Array(items) => items.len() <= i64::MAX && all_sized(items),
        Frame::Bulk(b) => b.len() <= i64::MAX,
        Frame::Integer(v) => i64::MIN <= v <= i64::MAX,
        _ => true,
    }
}

pub open spec fn all_sized(items: Seq<Frame>) -> bool
    decreases items,
{
    if items.len() == 0 {
        true
    } else {
        wire_sized(items[0]) && all_sized(items.subrange(1, items.len() as int))
    }
}

pub proof fn lemma_split(s: Seq<u8>, i: int, a: Seq<u8>, b: Seq<u8>)
    requires
        0 <= i,
        i + a.len() + b.len() <= s.len(),
        s.subrange(i, i + a.len() + b.len()) == a + b,
    ensures
        s.subrange(i, i + a.len()) == a,
        s.subrange(i + a.len(), i + a.len() + b.len()) == b,
{
    assert forall|m: int| 0 <= m < a.len() implies s.subrange(i, i + a.len())[m] == a[m] by {
        assert(s.subrange(i, i + a.len() + b.len())[m] == (a + b)[m]);
    }
    assert forall|m: int| 0 <= m < b.len() implies s.subrange(i + a.len(), i + a.len() + b.len())[m] == b[m] by {
        assert(s.subrange(i, i + a.len() + b.len())[a.len() + m] == (a + b)[a.len() + m]);
        assert(s.subrange(i + a.len(), i + a.len() + b.len())[m] == s[i + a.len() + m]);
        assert(s.subrange(i, i + a.len() + b.len())[a.len() + m] == s[i + a.len() + m]);
        assert((a + b)[a.len() + m] == b[m]);
    }
    assert(s.subrange(i, i + a.len()) =~= a);
    assert(s.subrange(i + a.len(), i + a.len() + b.len()) =~= b);
}

pub proof fn lemma_frame_bytes_nonempty(f: Frame)
    ensures
        frame_bytes(f).len() > 0,
        frame_bytes(f)[0] == match f {
            Frame::Nil => 36u8,
            Frame::Array(_) => 42u8,
            Frame::Bulk(_) => 36u8,
            Frame::Simple(_) => 43u8,
            Frame::Error(_) => 45u8,
            Frame::Integer(_) => 58u8,
        },
{
}

/// A header read back from where it was written.
pub proof fn lemma_parse_header(s: Seq<u8>, i: int, tag: u8, n: int)
    requires
        i64::MIN <= n <= i64::MAX,
        0 <= i,
        i + header(tag, n).len() <= s.len(),
        s.subrange(i, i + header(tag, n).len()) == header(tag, n),
    ensures
        s[i] == tag,
        header(tag, n).len() == decimal(n).len() + 3,
        parse_number(s, i + 1) == Step::Done(i + header(tag, n).len(), n),
{
    let d = decimal(n);
    assert(header(tag, n) =~= seq![tag] + (d + crlf()));
    lemma_split(s, i, seq![tag], d + crlf());
    assert(s[i] == s.subrange(i, i + 1)[0]);
    lemma_parse_number(s, i + 1, n);
}

/// A text line read back from where it was written.
pub proof fn lemma_parse_text(s: Seq<u8>, i: int, t: Seq<u8>)
    requires
        valid_text(t),
        0 <= i,
        i + t.len() + 2 <= s.len(),
        s.subrange(i, i + t.len() + 2) == t + crlf(),
    ensures
        parse_text(s, i) == Step::Done(i + t.len() + 2, t),
{
    let j = i + t.len();
    lemma_split(s, i, t, crlf());
    assert forall|m: int| i <= m < j implies #[trigger] s[m] != 13 by {
        assert(s[m] == s.subrange(i, j)[m - i]);
    }
    assert(s[j] == s.subrange(j, j + 2)[0]);
    assert(s[j + 1] == s.subrange(j, j + 2)[1]);
    lemma_line_end_at(s, i, j);
}

/// Every writable frame reads back as itself from where it was written,
/// whatever bytes stand around it.
pub proof fn lemma_parse_frame(s: Seq<u8>, i: int, f: Frame)
    requires
        encodable(f),
        wire_sized(f),
        0 <= i,
        i + frame_bytes(f).len() <= s.len(),
        s.subrange(i, i + frame_bytes(f).len()) == frame_bytes(f),
    ensures
        parse_at(s, i) == Step::Done(i + frame_bytes(f).len(), f),
    decreases f,
{
    lemma_frame_bytes_nonempty(f);
    assert(s[i] == frame_bytes(f)[0]) by {
        assert(s.subrange(i, i + frame_bytes(f).len())[0] == s[i]);
    }
    match f {
        Frame::Nil => {
            lemma_parse_header(s, i, 36u8, -1);
        },
        Frame::Bulk(b) => {
            let h = header(36u8, b.len() as int);
            assert(frame_bytes(f) =~= h + (b + crlf()));
            lemma_split(s, i, h, b + crlf());
            lemma_parse_header(s, i, 36u8, b.len() as int);
            let p = i + h.len();
            lemma_split(s, p, b, crlf());
            assert(s[p + b.len()] == s.subrange(p + b.len(), p + b.len() + 2)[0]);
            assert(s[p + b.len() + 1] == s.subrange(p + b.len(), p + b.len() + 2)[1]);
        },
        Frame::Simple(t) => {
            assert(frame_bytes(f) =~= seq![43u8] + (t + crlf()));
            lemma_split(s, i, seq![43u8], t + crlf());
            lemma_parse_text(s, i + 1, t);
        },
        Frame::Error(t) => {
            assert(frame_bytes(f) =~= seq![45u8] + (t + crlf()));
            lemma_split(s, i, seq![45u8], t + crlf());
            lemma_parse_text(s, i + 1, t);
        },
        Frame::Integer(v) => {
            lemma_parse_header(s, i, 58u8, v);
        },
        Frame::Array(items) => {
            let h = header(42u8, items.len() as int);
            let body = items_bytes(items);
            lemma_split(s, i, h, body);
            lemma_parse_header(s, i, 42u8, items.len() as int);
            lemma_parse_items(s, i + h.len(), items);
        },
    }
}

/// Frames written one after the other read back as themselves.
pub proof fn lemma_parse_items(s: Seq<u8>, p: int, items: Seq<Frame>)
    requires
        all_encodable(items),
        all_sized(items),
        0 <= p,
        p + items_bytes(items).len() <= s.len(),
        s.subrange(p, p + items_bytes(items).len()) == items_bytes(items),
    ensures
        parse_items(s, p, items.len() as int) == Step::Done(p + items_bytes(items).len(), items),
    decreases items,
{
    if items.len() == 0 {
        assert(items =~= Seq::<Frame>::empty());
    } else {
        let f = items[0];
        let rest = items.subrange(1, items.len() as int);
        lemma_split(s, p, frame_bytes(f), items_bytes(rest));
        lemma_parse_frame(s, p, f);
        lemma_frame_bytes_nonempty(f);
        let q = p + frame_bytes(f).len();
        lemma_parse_items(s, q, rest);
        assert(seq![f] + rest =~= items);
    }
}


pub proof fn lemma_split_prefix(s: Seq<u8>, i: int, a: Seq<u8>, b: Seq<u8>)
    requires
        0 <= i <= s.len(),
        s.len() - i <= a.len() + b.len(),
        s.subrange(i, s.len() as int) == (a + b).take(s.len() - i),
    ensures
        s.len() - i < a.len() ==> s.subrange(i, s.len() as int) == a.take(s.len() - i),
        s.len() - i >= a.len() ==> s.subrange(i, i + a.len()) == a && s.subrange(
            i + a.len(),
            s.len() as int,
        ) == b.take(s.len() - i - a.len()),
{
    let w = s.subrange(i, s.len() as int);
    if s.len() - i < a.len() {
        assert(w =~= a.take(s.len() - i)) by {
            assert forall|m: int| 0 <= m < w.len() implies w[m] == a.take(s.len() - i)[m] by {
                assert(w[m] == (a + b).take(s.len() - i)[m]);
            }
        }
    } else {
        assert(s.subrange(i, i + a.len()) =~= a) by {
            assert forall|m: int| 0 <= m < a.len() implies s.subrange(i, i + a.len())[m] == a[m] by {
                assert(w[m] == (a + b).take(s.len() - i)[m]);
                assert(w[m] == s[i + m]);
            }
        }
        let r = s.subrange(i + a.len(), s.len() as int);
        assert(r =~= b.take(s.len() - i - a.len())) by {
            assert forall|m: int| 0 <= m < r.len() implies r[m] == b.take(s.len() - i - a.len())[m] by {
                assert(w[a.len() + m] == (a + b).take(s.len() - i)[a.len() + m]);
                assert(w[a.len() + m] == s[i + a.len() + m]);
                assert((a + b)[a.len() + m] == b[m]);
            }
        }
    }
}

/// A line cut before its LF holds no line end.
pub proof fn lemma_no_line(s: Seq<u8>, i: int, t: Seq<u8>)
    requires
        0 <= i <= s.len(),
        s.len() - i < t.len() + 2,
        forall|k: int| 0 <= k < t.len() ==> #[trigger] t[k] != 13,
        s.subrange(i, s.len() as int) == (t + crlf()).take(s.len() - i),
    ensures
        line_end(s, i) is None,
{
    assert forall|m: int| i <= m && m + 1 < s.len() implies !(#[trigger] s[m] == 13 && s[m + 1] == 10) by {
        assert(s[m] == s.subrange(i, s.len() as int)[m - i]);
        assert((t + crlf()).take(s.len() - i)[m - i] == t[m - i]);
    }
    lemma_line_end_none(s, i);
}

/// A frame cut short reads as incomplete.
pub proof fn lemma_prefix_incomplete(s: Seq<u8>, i: int, f: Frame)
    requires
        encodable(f),
        wire_sized(f),
        0 <= i <= s.len(),
        s.len() < i + frame_bytes(f).len(),
        s.subrange(i, s.len() as int) == frame_bytes(f).take(s.len() - i),
    ensures
        parse_at(s, i) == Step::<Frame>::Incomplete,
    decreases f,
{
    if i < s.len() {
        lemma_frame_bytes_nonempty(f);
        assert(s[i] == frame_bytes(f)[0]) by {
            assert(s.subrange(i, s.len() as int)[0] == s[i]);
        }
        let tag = frame_bytes(f)[0];
        let n: int = match f {
            Frame::Nil => -1,
            Frame::Array(items) => items.len() as int,
            Frame::Bulk(b) => b.len() as int,
            Frame::Integer(v) => v,
            _ => 0,
        };
        match f {
            Frame::Simple(t) => {
                assert(frame_bytes(f) =~= seq![43u8] + (t + crlf()));
                lemma_split_prefix(s, i, seq![43u8], t + crlf());
                lemma_no_line(s, i + 1, t);
            },
            Frame::Error(t) => {
                assert(frame_bytes(f) =~= seq![45u8] + (t + crlf()));
                lemma_split_prefix(s, i, seq![45u8], t + crlf());
                lemma_no_line(s, i + 1, t);
            },
            _ => {
                let h = header(tag, n);
                let body = match f {
                    Frame::Array(items) => items_bytes(items),
                    Frame::Bulk(b) => b + crlf(),
                    _ => Seq::<u8>::empty(),
                };
                assert(frame_bytes(f) =~= h + body);
                lemma_split_prefix(s, i, h, body);
                let d = decimal(n);
                lemma_int_of_decimal(n);
                if s.len() - i < h.len() {
                    assert(h =~= seq![tag] + (d + crlf()));
                    lemma_split_prefix(s, i, seq![tag], d + crlf());
                    lemma_no_line(s, i + 1, d);
                } else {
                    lemma_parse_header(s, i, tag, n);
                    let p = i + h.len();
                    match f {
                        Frame::Array(items) => {
                            lemma_items_prefix_incomplete(s, p, items);
                        },
                        _ => {},
                    }
                }
            },
        }
    }
}

/// Frames written one after the other and cut short read as incomplete.
pub proof fn lemma_items_prefix_incomplete(s: Seq<u8>, p: int, items: Seq<Frame>)
    requires
        all_encodable(items),
        all_sized(items),
        0 <= p <= s.len(),
        s.len() < p + items_bytes(items).len(),
        s.subrange(p, s.len() as int) == items_bytes(items).take(s.len() - p),
    ensures
        parse_items(s, p, items.len() as int) == Step::<Seq<Frame>>::Incomplete,
    decreases items,
{
    if p < s.len() {
        let f = items[0];
        let rest = items.subrange(1, items.len() as int);
        lemma_split_prefix(s, p, frame_bytes(f), items_bytes(rest));
        if s.len() < p + frame_bytes(f).len() {
            lemma_prefix_incomplete(s, p, f);
        } else {
            lemma_parse_frame(s, p, f);
            lemma_frame_bytes_nonempty(f);
            let q = p + frame_bytes(f).len();
            lemma_items_prefix_incomplete(s, q, rest);
        }
    }
}


/// Nil is read only from a bulk string or an array whose length is -1.
pub proof fn nil_only_from_minus_one(s: Seq<u8>, i: int)
    ensures
        parse_at(s, i) matches Step::Done(p, Frame::Nil) ==> (s[i] == 36 || s[i] == 42)
            && parse_number(s, i + 1) == Step::Done(p, -1),
{
}

} // verus!
