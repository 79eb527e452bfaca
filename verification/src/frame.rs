//! The RESP wire format: frames, the byte-level scanner (`Frame::check`),
//! the decoder (`Frame::parse`) and the encoder (`write_frame`).
use vstd::prelude::*;
use vstd::utf8::*;
use vstd::slice::slice_to_vec;

verus! {

broadcast use vstd::seq_lib::group_seq_properties;

/// A frame of the RESP protocol.
#[derive(Debug)]
pub enum Frame {
    Integer(u64),
    Simple(String),
    Error(String),
    Array(Vec<Frame>),
    Bulk(Vec<u8>),
    Null,
}

/// The mathematical value of a frame.
pub enum FrameModel {
    Integer(u64),
    Simple(Seq<char>),
    Error(Seq<char>),
    Array(Seq<FrameModel>),
    Bulk(Seq<u8>),
    Null,
}

/// Errors of the scanner and the decoder.
#[derive(Debug)]
pub enum Error {
    /// Not enough bytes to hold a whole frame.
    Incomplete,
    /// The bytes do not form a valid frame.
    Other(String),
}

impl From<String> for Error {
    fn from(src: String) -> (r: Error) {
        Error::Other(src)
    }
}

impl vstd::std_specs::convert::FromSpecImpl<String> for Error {
    open spec fn obeys_from_spec() -> bool {
        true
    }

    open spec fn from_spec(v: String) -> Error {
        Error::Other(v)
    }
}

impl Error {
    /// The text of the error: `stream ended early`, or the message it holds.
    pub fn message(&self) -> (r: String)
        ensures
            self is Incomplete ==> r@ == "stream ended early"@,
            self matches Error::Other(m) ==> r@ == m@,
    {
        match self {
            Error::Incomplete => {
                proof {
                    broadcast use vstd::string::to_string_from_display_ensures_for_str;
                }
                "stream ended early".to_string()
            },
            Error::Other(m) => m.clone(),
        }
    }
}

impl Frame {
    pub open spec fn model(self) -> FrameModel
        decreases self,
    {
        match self {
            Frame::Integer(v) => FrameModel::Integer(v),
            Frame::Simple(s) => FrameModel::Simple(s@),
            Frame::Error(s) => FrameModel::Error(s@),
            Frame::Array(v) => FrameModel::Array(
                Seq::new(
                    v@.len(),
                    |i: int|
                        if 0 <= i < v@.len() {
                            v@[i].model()
                        } else {
                            FrameModel::Null
                        },
                ),
            ),
            Frame::Bulk(b) => FrameModel::Bulk(b@),
            Frame::Null => FrameModel::Null,
        }
    }
}

/// The models of a sequence of frames.
pub open spec fn models(v: Seq<Frame>) -> Seq<FrameModel> {
    Seq::new(v.len(), |i: int| v[i].model())
}

pub proof fn lemma_array_model(v: Vec<Frame>)
    ensures
        Frame::Array(v).model() == FrameModel::Array(models(v@)),
{
    let m = Frame::Array(v).model();
    let s = m->Array_0;
    assert(s =~= models(v@));
}

// ---------------------------------------------------------------------------
// Byte-level building blocks
// ---------------------------------------------------------------------------
/// The position of the first `\r\n` pair that starts at or after `i`.
pub open spec fn find_crlf(buf: Seq<u8>, i: int) -> Option<int>
    decreases buf.len() - i,
{
    if i < 0 || i + 1 >= buf.len() {
        None
    } else if buf[i] == 13 && buf[i + 1] == 10 {
        Some(i)
    } else {
        find_crlf(buf, i + 1)
    }
}

/// A `\r\n` pair starts at `k`.
pub open spec fn crlf_at(buf: Seq<u8>, k: int) -> bool {
    buf[k] == 13 && buf[k + 1] == 10
}

pub proof fn lemma_find_crlf(buf: Seq<u8>, i: int)
    ensures
        find_crlf(buf, i) matches Some(j) ==> {
            &&& i <= j
            &&& j + 1 < buf.len()
            &&& buf[j] == 13
            &&& buf[j + 1] == 10
            &&& forall|k: int| i <= k < j ==> !#[trigger] crlf_at(buf, k)
        },
        find_crlf(buf, i) is None ==> forall|k: int|
            0 <= i <= k && k + 1 < buf.len() ==> !#[trigger] crlf_at(buf, k),
    decreases buf.len() - i,
{
    if i < 0 || i + 1 >= buf.len() {
    } else if buf[i] == 13 && buf[i + 1] == 10 {
    } else {
        lemma_find_crlf(buf, i + 1);
    }
}

pub open spec fn is_digit(b: u8) -> bool {
    48 <= b <= 57
}

/// The number of ASCII digits at the start of `s`.
pub open spec fn leading_digits(s: Seq<u8>) -> nat
    decreases s.len(),
{
    if s.len() > 0 && is_digit(s[0]) {
        1 + leading_digits(s.drop_first())
    } else {
        0
    }
}

/// The value of a sequence of ASCII digits read in base 10.
pub open spec fn digits_value(s: Seq<u8>) -> nat
    decreases s.len(),
{
    if s.len() == 0 {
        0
    } else {
        digits_value(s.drop_last()) * 10 + (s.last() - 48) as nat
    }
}

/// What `atoi::atoi::<u64>` returns for `text`: an optional sign (`+` or `-`)
/// followed by the longest run of ASCII digits; `None` when there is neither
/// sign nor digit, when the value does not fit in a `u64`, or when a minus sign
/// precedes a value other than zero.
pub open spec fn spec_atoi_u64(text: Seq<u8>) -> Option<u64> {
    let signed = text.len() > 0 && (text[0] == 43 || text[0] == 45);
    let rest = if signed {
        text.drop_first()
    } else {
        text
    };
    let value = digits_value(rest.take(leading_digits(rest) as int));
    if !signed && leading_digits(rest) == 0 {
        None
    } else if signed && text[0] == 45 {
        if value == 0 {
            Some(0u64)
        } else {
            None
        }
    } else if value <= u64::MAX {
        Some(value as u64)
    } else {
        None
    }
}

/// Parses the leading integer of `text` with the `atoi` crate.
#[verifier::external_body]
fn atoi_u64(text: &[u8]) -> (r: Option<u64>)
    ensures
        r == spec_atoi_u64(text@),
{
    atoi::atoi::<u64>(text)
}

/// Decodes `bytes` as UTF-8 with `String::from_utf8`; `None` when they are not
/// valid UTF-8.
#[verifier::external_body]
pub(crate) fn utf8_to_string(bytes: &[u8]) -> (r: Option<String>)
    ensures
        r is Some <==> valid_utf8(bytes@),
        r matches Some(s) ==> s@ == decode_utf8(bytes@),
{
    String::from_utf8(bytes.to_vec()).ok()
}

/// The characters of the decimal digits of `n`, as `Display` writes an
/// unsigned integer.
pub open spec fn dec_chars(n: nat) -> Seq<char> {
    Seq::new(dec_digits(n).len(), |i: int| dec_digits(n)[i] as char)
}

/// The message of the error for an unknown first byte, made by `format!`:
/// the byte in decimal within the text.
#[verifier::external_body]
fn invalid_start_message(b: u8) -> (r: String)
    ensures
        r@ == "Invalid byte `"@ + dec_chars(b as nat) + "` for start of frame"@,
{
    format!("Invalid byte `{}` for start of frame", b)
}

/// The message of the error for a line that is no `u64`, made by `format!`.
#[verifier::external_body]
fn not_decimal_message(line: &[u8]) -> String {
    format!("Can not {:?} cast to u64", line)
}

/// The error for a frame that breaks the format.
fn protocol_error() -> (e: Error)
    ensures
        e matches Error::Other(m) && m@ == "protocol error; invalid frame format"@,
{
    proof {
        broadcast use vstd::string::to_string_from_display_ensures_for_str;
    }
    Error::Other("protocol error; invalid frame format".to_string())
}

/// What reading a decimal line yields.
pub enum DecimalScan {
    Value(u64, int),
    Incomplete,
    Invalid,
}

pub open spec fn scan_decimal(buf: Seq<u8>, pos: int) -> DecimalScan {
    match find_crlf(buf, pos) {
        None => DecimalScan::Incomplete,
        Some(i) => match spec_atoi_u64(buf.subrange(pos, i)) {
            Some(v) => DecimalScan::Value(v, i + 2),
            None => DecimalScan::Invalid,
        },
    }
}

// ---------------------------------------------------------------------------
// What the scanner and the decoder make of a buffer
// ---------------------------------------------------------------------------
/// The outcome of scanning for a frame: the position right after it, or why
/// there is none. `Aborts` marks the inputs on which the scanner gives up
/// without an answer (advancing past the end of the buffer).
pub enum Scan {
    Done(int),
    Incomplete,
    Invalid,
    Aborts,
}

/// Skipping `n` bytes from `pos`.
pub open spec fn scan_skip(buf: Seq<u8>, pos: int, n: int) -> Scan {
    if pos >= buf.len() {
        Scan::Incomplete
    } else if n > buf.len() - pos {
        Scan::Aborts
    } else {
        Scan::Done(pos + n)
    }
}

/// Where the frame that starts at `pos` ends, checked as `Frame::check` does.
/// (A bulk frame whose length starts with `-` is the null frame `$-1`.)
pub open spec fn scan_frame(buf: Seq<u8>, pos: int) -> Scan
    decreases buf.len() - pos, 0int, 0nat,
{
    if pos < 0 || pos >= buf.len() {
        Scan::Incomplete
    } else {
        let b = buf[pos];
        let p = pos + 1;
        if b == 43 || b == 45 {
            match find_crlf(buf, p) {
                Some(i) => Scan::Done(i + 2),
                None => Scan::Incomplete,
            }
        } else if b == 42 {
            match scan_decimal(buf, p) {
                DecimalScan::Value(n, q) => {
                    proof {
                        lemma_find_crlf(buf, p);
                    }
                    scan_items(buf, q, n as nat)
                },
                DecimalScan::Incomplete => Scan::Incomplete,
                DecimalScan::Invalid => Scan::Invalid,
            }
        } else if b == 36 {
            if p >= buf.len() {
                Scan::Incomplete
            } else if buf[p] == 45 {
                scan_skip(buf, p, 4)
            } else {
                match scan_decimal(buf, p) {
                    DecimalScan::Value(n, q) => if n > usize::MAX {
                        Scan::Invalid
                    } else if n + 2 > usize::MAX {
                        Scan::Aborts
                    } else {
                        scan_skip(buf, q, n + 2)
                    },
                    DecimalScan::Incomplete => Scan::Incomplete,
                    DecimalScan::Invalid => Scan::Invalid,
                }
            }
        } else if b == 58 {
            match scan_decimal(buf, p) {
                DecimalScan::Value(_, q) => Scan::Done(q),
                DecimalScan::Incomplete => Scan::Incomplete,
                DecimalScan::Invalid => Scan::Invalid,
            }
        } else {
            Scan::Invalid
        }
    }
}

/// Where `n` consecutive frames starting at `pos` end.
pub open spec fn scan_items(buf: Seq<u8>, pos: int, n: nat) -> Scan
    decreases buf.len() - pos, 1int, n,
{
    if n == 0 {
        Scan::Done(pos)
    } else {
        match scan_frame(buf, pos) {
            Scan::Done(q) => if pos < q <= buf.len() {
                scan_items(buf, q, (n - 1) as nat)
            } else {
                Scan::Invalid
            },
            other => other,
        }
    }
}

/// The outcome of decoding a frame.
pub enum Decoded {
    Done(FrameModel, int),
    Incomplete,
    Invalid,
    Aborts,
}

/// The outcome of decoding several frames.
pub enum DecodedItems {
    Done(Seq<FrameModel>, int),
    Incomplete,
    Invalid,
    Aborts,
}

/// The text frame (simple or error) whose line runs from `p` to `i`.
pub open spec fn decode_line(buf: Seq<u8>, p: int, i: int, is_error: bool) -> Decoded {
    let line = buf.subrange(p, i);
    if valid_utf8(line) {
        if is_error {
            Decoded::Done(FrameModel::Error(decode_utf8(line)), i + 2)
        } else {
            Decoded::Done(FrameModel::Simple(decode_utf8(line)), i + 2)
        }
    } else {
        Decoded::Invalid
    }
}

/// The frame that starts at `pos`, decoded as `Frame::parse` does.
pub open spec fn decode_frame(buf: Seq<u8>, pos: int) -> Decoded
    decreases buf.len() - pos, 0int, 0nat,
{
    if pos < 0 || pos >= buf.len() {
        Decoded::Incomplete
    } else {
        let b = buf[pos];
        let p = pos + 1;
        if b == 43 || b == 45 {
            match find_crlf(buf, p) {
                Some(i) => decode_line(buf, p, i, b == 45),
                None => Decoded::Incomplete,
            }
        } else if b == 42 {
            match scan_decimal(buf, p) {
                DecimalScan::Value(n, q) => {
                    proof {
                        lemma_find_crlf(buf, p);
                    }
                    match decode_items(buf, q, n as nat) {
                        DecodedItems::Done(items, r) => Decoded::Done(FrameModel::Array(items), r),
                        DecodedItems::Incomplete => Decoded::Incomplete,
                        DecodedItems::Invalid => Decoded::Invalid,
                        DecodedItems::Aborts => Decoded::Aborts,
                    }
                },
                DecimalScan::Incomplete => Decoded::Incomplete,
                DecimalScan::Invalid => Decoded::Invalid,
            }
        } else if b == 36 {
            if p >= buf.len() {
                Decoded::Incomplete
            } else if buf[p] == 45 {
                match scan_skip(buf, p, 4) {
                    Scan::Done(q) => Decoded::Done(FrameModel::Null, q),
                    Scan::Incomplete => Decoded::Incomplete,
                    Scan::Invalid => Decoded::Invalid,
                    Scan::Aborts => Decoded::Aborts,
                }
            } else {
                match scan_decimal(buf, p) {
                    DecimalScan::Value(n, q) => if n > usize::MAX {
                        Decoded::Invalid
                    } else if n + 2 > usize::MAX {
                        Decoded::Aborts
                    } else {
                        match scan_skip(buf, q, n + 2) {
                            Scan::Done(r) => Decoded::Done(
                                FrameModel::Bulk(buf.subrange(q, q + n)),
                                r,
                            ),
                            Scan::Incomplete => Decoded::Incomplete,
                            Scan::Invalid => Decoded::Invalid,
                            Scan::Aborts => Decoded::Aborts,
                        }
                    },
                    DecimalScan::Incomplete => Decoded::Incomplete,
                    DecimalScan::Invalid => Decoded::Invalid,
                }
            }
        } else if b == 58 {
            match scan_decimal(buf, p) {
                DecimalScan::Value(v, q) => Decoded::Done(FrameModel::Integer(v), q),
                DecimalScan::Incomplete => Decoded::Incomplete,
                DecimalScan::Invalid => Decoded::Invalid,
            }
        } else {
            Decoded::Invalid
        }
    }
}

/// The `n` consecutive frames that start at `pos`.
pub open spec fn decode_items(buf: Seq<u8>, pos: int, n: nat) -> DecodedItems
    decreases buf.len() - pos, 1int, n,
{
    if n == 0 {
        DecodedItems::Done(Seq::empty(), pos)
    } else {
        match decode_frame(buf, pos) {
            Decoded::Done(f, q) => if pos < q <= buf.len() {
                match decode_items(buf, q, (n - 1) as nat) {
                    DecodedItems::Done(rest, r) => DecodedItems::Done(seq![f] + rest, r),
                    other => other,
                }
            } else {
                DecodedItems::Invalid
            },
            Decoded::Incomplete => DecodedItems::Incomplete,
            Decoded::Invalid => DecodedItems::Invalid,
            Decoded::Aborts => DecodedItems::Aborts,
        }
    }
}

// ---------------------------------------------------------------------------
// The cursor
// ---------------------------------------------------------------------------
/// A read position in a byte buffer.
pub struct Cursor<'a> {
    buf: &'a [u8],
    pos: usize,
}

impl<'a> Cursor<'a> {
    pub closed spec fn data(&self) -> Seq<u8> {
        self.buf@
    }

    pub closed spec fn pos(&self) -> int {
        self.pos as int
    }

    pub fn new(buf: &'a [u8]) -> (c: Cursor<'a>)
        ensures
            c.data() == buf@,
            c.pos() == 0,
    {
        Cursor { buf, pos: 0 }
    }

    pub fn position(&self) -> (p: usize)
        ensures
            p == self.pos(),
    {
        self.pos
    }

    pub fn set_position(&mut self, pos: usize)
        ensures
            final(self).data() == old(self).data(),
            final(self).pos() == pos,
    {
        self.pos = pos;
    }

    pub fn get_ref(&self) -> (r: &'a [u8])
        ensures
            r@ == self.data(),
    {
        self.buf
    }

    pub fn has_remaining(&self) -> (r: bool)
        ensures
            r == (self.pos() < self.data().len()),
    {
        self.pos < self.buf.len()
    }
}

/// Advances the cursor by `len` bytes; `Incomplete` when no byte is left.
pub fn skip(cursor: &mut Cursor, len: usize) -> (r: Result<(), Error>)
    requires
        old(cursor).pos() < old(cursor).data().len() ==> len <= old(cursor).data().len() - old(
            cursor,
        ).pos(),
    ensures
        final(cursor).data() == old(cursor).data(),
        old(cursor).pos() >= old(cursor).data().len() ==> (r matches Err(Error::Incomplete))
            && final(cursor).pos() == old(cursor).pos(),
        old(cursor).pos() < old(cursor).data().len() ==> r is Ok && final(cursor).pos() == old(
            cursor,
        ).pos() + len,
{
    if !cursor.has_remaining() {
        return Err(Error::Incomplete);
    }
    let n = cursor.buf.len();
    assert(cursor.pos + len <= n);
    cursor.pos = cursor.pos + len;
    Ok(())
}

/// The byte at the cursor, which stays where it is.
pub fn peek_u8(cursor: &mut Cursor) -> (r: Result<u8, Error>)
    ensures
        *final(cursor) == *old(cursor),
        old(cursor).pos() >= old(cursor).data().len() ==> r matches Err(Error::Incomplete),
        old(cursor).pos() < old(cursor).data().len() ==> r == Ok::<u8, Error>(
            old(cursor).data()[old(cursor).pos()],
        ),
{
    if !cursor.has_remaining() {
        return Err(Error::Incomplete);
    }
    Ok(cursor.get_ref()[cursor.position()])
}

/// Reads one byte.
pub fn get_u8(cursor: &mut Cursor) -> (r: Result<u8, Error>)
    ensures
        final(cursor).data() == old(cursor).data(),
        old(cursor).pos() >= old(cursor).data().len() ==> (r matches Err(Error::Incomplete))
            && final(cursor).pos() == old(cursor).pos(),
        old(cursor).pos() < old(cursor).data().len() ==> r == Ok::<u8, Error>(
            old(cursor).data()[old(cursor).pos()],
        ) && final(cursor).pos() == old(cursor).pos() + 1,
{
    if !cursor.has_remaining() {
        return Err(Error::Incomplete);
    }
    let b = cursor.buf[cursor.pos];
    cursor.pos = cursor.pos + 1;
    Ok(b)
}

/// Reads up to the next `\r\n` and returns the bytes before it.
pub fn get_line<'a>(cursor: &mut Cursor<'a>) -> (r: Result<&'a [u8], Error>)
    requires
        old(cursor).data().len() >= 1,
    ensures
        final(cursor).data() == old(cursor).data(),
        match find_crlf(old(cursor).data(), old(cursor).pos()) {
            Some(i) => r matches Ok(line) && line@ == old(cursor).data().subrange(
                old(cursor).pos(),
                i,
            ) && final(cursor).pos() == i + 2,
            None => r matches Err(Error::Incomplete) && final(cursor).pos() == old(cursor).pos(),
        },
{
    let start = cursor.position();
    let end = cursor.get_ref().len() - 1;
    let buf = cursor.get_ref();
    let mut i = start;
    proof {
        lemma_find_crlf(buf@, start as int);
    }
    while i < end
        invariant
            *cursor == *old(cursor),
            buf@ == cursor.data(),
            end == buf@.len() - 1,
            start == cursor.pos(),
            start <= i || end <= start,
            find_crlf(buf@, start as int) == find_crlf(buf@, i as int),
        decreases end - i,
    {
        if buf[i] == 13 && buf[i + 1] == 10 {
            cursor.set_position(i + 2);
            return Ok(&buf[start..i]);
        }
        i = i + 1;
    }
    Err(Error::Incomplete)
}

/// Reads a line and parses it as a decimal `u64`.
pub fn get_decimal(cursor: &mut Cursor) -> (r: Result<u64, Error>)
    requires
        old(cursor).data().len() >= 1,
    ensures
        final(cursor).data() == old(cursor).data(),
        match scan_decimal(old(cursor).data(), old(cursor).pos()) {
            DecimalScan::Value(v, q) => r == Ok::<u64, Error>(v) && final(cursor).pos() == q,
            DecimalScan::Incomplete => r matches Err(Error::Incomplete),
            DecimalScan::Invalid => r matches Err(Error::Other(_)),
        },
{
    let line = get_line(cursor)?;
    match atoi_u64(line) {
        Some(v) => Ok(v),
        None => Err(Error::Other(not_decimal_message(line))),
    }
}

// ---------------------------------------------------------------------------
// Bounds of what the scanner and the decoder consume
// ---------------------------------------------------------------------------
pub proof fn lemma_scan_frame_bounds(buf: Seq<u8>, pos: int)
    ensures
        scan_frame(buf, pos) matches Scan::Done(q) ==> pos < q <= buf.len(),
    decreases buf.len() - pos, 0int, 0nat,
{
    if pos < 0 || pos >= buf.len() {
    } else {
        let p = pos + 1;
        lemma_find_crlf(buf, p);
        if buf[pos] == 42 {
            if let DecimalScan::Value(n, q) = scan_decimal(buf, p) {
                lemma_scan_items_bounds(buf, q, n as nat);
            }
        }
    }
}

pub proof fn lemma_scan_items_bounds(buf: Seq<u8>, pos: int, n: nat)
    requires
        0 <= pos <= buf.len(),
    ensures
        scan_items(buf, pos, n) matches Scan::Done(q) ==> pos <= q <= buf.len(),
    decreases buf.len() - pos, 1int, n,
{
    if n > 0 {
        lemma_scan_frame_bounds(buf, pos);
        if let Scan::Done(q) = scan_frame(buf, pos) {
            if pos < q <= buf.len() {
                lemma_scan_items_bounds(buf, q, (n - 1) as nat);
            }
        }
    }
}

pub proof fn lemma_decode_frame_bounds(buf: Seq<u8>, pos: int)
    ensures
        decode_frame(buf, pos) matches Decoded::Done(_, q) ==> pos < q <= buf.len(),
    decreases buf.len() - pos, 0int, 0nat,
{
    if pos < 0 || pos >= buf.len() {
    } else {
        let p = pos + 1;
        lemma_find_crlf(buf, p);
        if buf[pos] == 42 {
            if let DecimalScan::Value(n, q) = scan_decimal(buf, p) {
                lemma_decode_items_bounds(buf, q, n as nat);
            }
        }
    }
}

pub proof fn lemma_decode_items_bounds(buf: Seq<u8>, pos: int, n: nat)
    requires
        0 <= pos <= buf.len(),
    ensures
        decode_items(buf, pos, n) matches DecodedItems::Done(_, q) ==> pos <= q <= buf.len(),
    decreases buf.len() - pos, 1int, n,
{
    if n > 0 {
        lemma_decode_frame_bounds(buf, pos);
        if let Decoded::Done(f, q) = decode_frame(buf, pos) {
            if pos < q <= buf.len() {
                lemma_decode_items_bounds(buf, q, (n - 1) as nat);
            }
        }
    }
}

/// `items` followed by what `d` decoded.
pub open spec fn prepend_items(items: Seq<FrameModel>, d: DecodedItems) -> DecodedItems {
    match d {
        DecodedItems::Done(rest, r) => DecodedItems::Done(items + rest, r),
        other => other,
    }
}

// ---------------------------------------------------------------------------
// Scanning and decoding
// ---------------------------------------------------------------------------
/// `Frame::check`'s answer on the scan outcome `s`, for the cursor after the call.
pub open spec fn check_result(s: Scan, r: Result<(), Error>, after: int) -> bool {
    match s {
        Scan::Done(q) => r is Ok && after == q,
        Scan::Incomplete => r matches Err(Error::Incomplete),
        Scan::Invalid => r matches Err(Error::Other(_)),
        Scan::Aborts => false,
    }
}

/// `Frame::parse`'s answer on the decode outcome `d`, for the cursor after the call.
pub open spec fn parse_result(d: Decoded, r: Result<Frame, Error>, after: int) -> bool {
    match d {
        Decoded::Done(f, q) => r matches Ok(frame) && frame.model() == f && after == q,
        Decoded::Incomplete => r matches Err(Error::Incomplete),
        Decoded::Invalid => r matches Err(Error::Other(_)),
        Decoded::Aborts => false,
    }
}

impl Frame {
    /// Checks, as `check` does, that a whole frame can be read at the cursor;
    /// `None` on the inputs where `check` gives up (it would advance past the end).
    pub fn try_check(cursor: &mut Cursor) -> (r: Option<Result<(), Error>>)
        ensures
            final(cursor).data() == old(cursor).data(),
            match r {
                Some(res) => check_result(
                    scan_frame(old(cursor).data(), old(cursor).pos()),
                    res,
                    final(cursor).pos(),
                ),
                None => scan_frame(old(cursor).data(), old(cursor).pos()) is Aborts,
            },
        decreases old(cursor).data().len() - old(cursor).pos(),
    {
        let ghost data = cursor.data();
        let ghost start = cursor.pos();
        let b = match get_u8(cursor) {
            Ok(b) => b,
            Err(e) => return Some(Err(e)),
        };
        let p = cursor.position();
        let n = cursor.get_ref().len();
        if b == 43 || b == 45 {
            match get_line(cursor) {
                Ok(_) => Some(Ok(())),
                Err(e) => Some(Err(e)),
            }
        } else if b == 42 {
            let len = match get_decimal(cursor) {
                Ok(len) => len,
                Err(e) => return Some(Err(e)),
            };
            proof {
                lemma_find_crlf(data, p as int);
            }
            let ghost q0 = cursor.pos();
            let mut k: u64 = 0;
            while k < len
                invariant
                    cursor.data() == data,
                    data == old(cursor).data(),
                    start == old(cursor).pos(),
                    n == data.len(),
                    start < q0 <= cursor.pos() <= data.len(),
                    k <= len,
                    scan_frame(data, start) == scan_items(data, q0, len as nat),
                    scan_items(data, q0, len as nat) == scan_items(
                        data,
                        cursor.pos(),
                        (len - k) as nat,
                    ),
                decreases len - k,
            {
                let ghost here = cursor.pos();
                proof {
                    lemma_scan_frame_bounds(data, here);
                }
                match Frame::try_check(cursor) {
                    Some(Ok(())) => {},
                    Some(Err(e)) => return Some(Err(e)),
                    None => return None,
                }
                k = k + 1;
            }
            Some(Ok(()))
        } else if b == 36 {
            let first = match peek_u8(cursor) {
                Ok(first) => first,
                Err(e) => return Some(Err(e)),
            };
            if first == 45 {
                if 4 > n - p {
                    return None;
                }
                match skip(cursor, 4) {
                    Ok(()) => Some(Ok(())),
                    Err(e) => Some(Err(e)),
                }
            } else {
                let len = match get_decimal(cursor) {
                    Ok(len) => len,
                    Err(e) => return Some(Err(e)),
                };
                let len: usize = match usize::try_from(len) {
                    Ok(len) => len,
                    Err(_) => return Some(Err(protocol_error())),
                };
                if len > usize::MAX - 2 {
                    return None;
                }
                let q = cursor.position();
                if q < n && len + 2 > n - q {
                    return None;
                }
                match skip(cursor, len + 2) {
                    Ok(()) => Some(Ok(())),
                    Err(e) => Some(Err(e)),
                }
            }
        } else if b == 58 {
            match get_decimal(cursor) {
                Ok(_) => Some(Ok(())),
                Err(e) => Some(Err(e)),
            }
        } else {
            Some(Err(Error::Other(invalid_start_message(b))))
        }
    }

    /// Checks that a whole frame can be read at the cursor, and moves the cursor
    /// past it.
    pub fn check(cursor: &mut Cursor) -> (r: Result<(), Error>)
        requires
            !(scan_frame(old(cursor).data(), old(cursor).pos()) is Aborts),
        ensures
            final(cursor).data() == old(cursor).data(),
            check_result(
                scan_frame(old(cursor).data(), old(cursor).pos()),
                r,
                final(cursor).pos(),
            ),
    {
        match Frame::try_check(cursor) {
            Some(r) => r,
            None => Err(Error::Incomplete),
        }
    }

    /// Decodes, as `parse` does, the frame at the cursor; `None` on the inputs
    /// where `parse` gives up (it would advance past the end).
    pub fn try_parse(cursor: &mut Cursor) -> (r: Option<Result<Frame, Error>>)
        ensures
            final(cursor).data() == old(cursor).data(),
            match r {
                Some(res) => parse_result(
                    decode_frame(old(cursor).data(), old(cursor).pos()),
                    res,
                    final(cursor).pos(),
                ),
                None => decode_frame(old(cursor).data(), old(cursor).pos()) is Aborts,
            },
        decreases old(cursor).data().len() - old(cursor).pos(),
    {
        let ghost data = cursor.data();
        let ghost start = cursor.pos();
        let b = match get_u8(cursor) {
            Ok(b) => b,
            Err(e) => return Some(Err(e)),
        };
        let p = cursor.position();
        let n = cursor.get_ref().len();
        if b == 43 || b == 45 {
            let line = match get_line(cursor) {
                Ok(line) => line,
                Err(e) => return Some(Err(e)),
            };
            match utf8_to_string(line) {
                Some(string) => if b == 45 {
                    Some(Ok(Frame::Error(string)))
                } else {
                    Some(Ok(Frame::Simple(string)))
                },
                None => Some(Err(protocol_error())),
            }
        } else if b == 42 {
            let len = match get_decimal(cursor) {
                Ok(len) => len,
                Err(e) => return Some(Err(e)),
            };
            proof {
                lemma_find_crlf(data, p as int);
            }
            let ghost q0 = cursor.pos();
            let mut items: Vec<Frame> = Vec::new();
            let mut k: u64 = 0;
            while k < len
                invariant
                    cursor.data() == data,
                    data == old(cursor).data(),
                    start == old(cursor).pos(),
                    n == data.len(),
                    start < q0 <= cursor.pos() <= data.len(),
                    k <= len,
                    decode_frame(data, start) == match decode_items(data, q0, len as nat) {
                        DecodedItems::Done(items, r) => Decoded::Done(FrameModel::Array(items), r),
                        DecodedItems::Incomplete => Decoded::Incomplete,
                        DecodedItems::Invalid => Decoded::Invalid,
                        DecodedItems::Aborts => Decoded::Aborts,
                    },
                    decode_items(data, q0, len as nat) == prepend_items(
                        models(items@),
                        decode_items(data, cursor.pos(), (len - k) as nat),
                    ),
                decreases len - k,
            {
                let ghost here = cursor.pos();
                proof {
                    lemma_decode_frame_bounds(data, here);
                }
                match Frame::try_parse(cursor) {
                    Some(Ok(frame)) => {
                        let ghost before = items@;
                        let ghost rest = decode_items(data, cursor.pos(), (len - k - 1) as nat);
                        items.push(frame);
                        proof {
                            assert(models(items@) =~= models(before) + seq![frame.model()]);
                            if let DecodedItems::Done(tail, r) = rest {
                                assert(models(before) + (seq![frame.model()] + tail) =~= models(
                                    items@,
                                ) + tail);
                            }
                        }
                    },
                    Some(Err(e)) => return Some(Err(e)),
                    None => return None,
                }
                k = k + 1;
            }
            proof {
                lemma_array_model(items);
                assert(models(items@) + Seq::<FrameModel>::empty() =~= models(items@));
            }
            Some(Ok(Frame::Array(items)))
        } else if b == 36 {
            let first = match peek_u8(cursor) {
                Ok(first) => first,
                Err(e) => return Some(Err(e)),
            };
            if first == 45 {
                if 4 > n - p {
                    return None;
                }
                match skip(cursor, 4) {
                    Ok(()) => Some(Ok(Frame::Null)),
                    Err(e) => Some(Err(e)),
                }
            } else {
                let len = match get_decimal(cursor) {
                    Ok(len) => len,
                    Err(e) => return Some(Err(e)),
                };
                let len: usize = match usize::try_from(len) {
                    Ok(len) => len,
                    Err(_) => return Some(Err(protocol_error())),
                };
                if len > usize::MAX - 2 {
                    return None;
                }
                let q = cursor.position();
                if q >= n {
                    return Some(Err(Error::Incomplete));
                }
                if len + 2 > n - q {
                    return None;
                }
                let data_bytes = slice_to_vec(&cursor.get_ref()[q..q + len]);
                match skip(cursor, len + 2) {
                    Ok(()) => Some(Ok(Frame::Bulk(data_bytes))),
                    Err(e) => Some(Err(e)),
                }
            }
        } else if b == 58 {
            match get_decimal(cursor) {
                Ok(v) => Some(Ok(Frame::Integer(v))),
                Err(e) => Some(Err(e)),
            }
        } else {
            Some(Err(Error::Other(invalid_start_message(b))))
        }
    }

    /// Decodes the frame at the cursor and moves the cursor past it.
    pub fn parse(cursor: &mut Cursor) -> (r: Result<Frame, Error>)
        requires
            !(decode_frame(old(cursor).data(), old(cursor).pos()) is Aborts),
        ensures
            final(cursor).data() == old(cursor).data(),
            parse_result(
                decode_frame(old(cursor).data(), old(cursor).pos()),
                r,
                final(cursor).pos(),
            ),
    {
        match Frame::try_parse(cursor) {
            Some(r) => r,
            None => Err(Error::Incomplete),
        }
    }
}

// ---------------------------------------------------------------------------
// The encoder
// ---------------------------------------------------------------------------
pub open spec fn crlf() -> Seq<u8> {
    seq![13u8, 10u8]
}

/// The ASCII decimal digits of `n`, most significant first.
pub open spec fn dec_digits(n: nat) -> Seq<u8>
    decreases n,
{
    if n < 10 {
        seq![(48 + n) as u8]
    } else {
        dec_digits(n / 10).push((48 + n % 10) as u8)
    }
}

/// A decimal line: the digits of `n` and `\r\n`.
pub open spec fn encode_decimal(n: nat) -> Seq<u8> {
    dec_digits(n) + crlf()
}

/// The bytes that `write_value` produces for a frame.
pub open spec fn encode(f: FrameModel) -> Seq<u8>
    decreases f,
{
    match f {
        FrameModel::Simple(s) => seq![43u8] + encode_utf8(s) + crlf(),
        FrameModel::Error(s) => seq![45u8] + encode_utf8(s) + crlf(),
        FrameModel::Integer(v) => seq![58u8] + encode_decimal(v as nat),
        FrameModel::Null => seq![36u8, 45u8, 49u8, 13u8, 10u8],
        FrameModel::Bulk(b) => seq![36u8] + encode_decimal(b.len()) + b + crlf(),
        FrameModel::Array(items) => seq![42u8] + encode_decimal(items.len()) + encode_items(items),
    }
}

/// The bytes of several frames, one after the other.
pub open spec fn encode_items(items: Seq<FrameModel>) -> Seq<u8>
    decreases items,
{
    if items.len() == 0 {
        seq![]
    } else {
        encode_items(items.subrange(0, items.len() - 1)) + encode(items[items.len() - 1])
    }
}

fn write_digits(buf: &mut Vec<u8>, n: u64)
    ensures
        final(buf)@ == old(buf)@ + dec_digits(n as nat),
    decreases n,
{
    if n >= 10 {
        write_digits(buf, n / 10);
    }
    let d: u8 = (48 + n % 10) as u8;
    buf.push(d);
    proof {
        assert(final(buf)@ =~= old(buf)@ + dec_digits(n as nat));
    }
}

/// Writes `val` as a decimal line.
pub fn write_decimal(buf: &mut Vec<u8>, val: u64)
    ensures
        final(buf)@ == old(buf)@ + encode_decimal(val as nat),
{
    write_digits(buf, val);
    buf.push(13);
    buf.push(10);
    proof {
        assert(final(buf)@ =~= old(buf)@ + encode_decimal(val as nat));
    }
}

pub(crate) fn write_bytes(buf: &mut Vec<u8>, bytes: &[u8])
    ensures
        final(buf)@ == old(buf)@ + bytes@,
{
    let mut i: usize = 0;
    while i < bytes.len()
        invariant
            i <= bytes@.len(),
            buf@ == old(buf)@ + bytes@.subrange(0, i as int),
        decreases bytes@.len() - i,
    {
        buf.push(bytes[i]);
        i = i + 1;
        proof {
            assert(buf@ =~= old(buf)@ + bytes@.subrange(0, i as int));
        }
    }
    proof {
        assert(bytes@.subrange(0, bytes@.len() as int) =~= bytes@);
    }
}

/// Writes the encoding of `frame`.
pub fn write_value(buf: &mut Vec<u8>, frame: &Frame)
    ensures
        final(buf)@ == old(buf)@ + encode(frame.model()),
    decreases frame,
{
    match frame {
        Frame::Simple(val) => {
            buf.push(43);
            write_bytes(buf, val.as_str().as_bytes());
            buf.push(13);
            buf.push(10);
            proof {
                assert(final(buf)@ =~= old(buf)@ + encode(frame.model()));
            }
        },
        Frame::Error(val) => {
            buf.push(45);
            write_bytes(buf, val.as_str().as_bytes());
            buf.push(13);
            buf.push(10);
            proof {
                assert(final(buf)@ =~= old(buf)@ + encode(frame.model()));
            }
        },
        Frame::Integer(val) => {
            buf.push(58);
            write_decimal(buf, *val);
            proof {
                assert(final(buf)@ =~= old(buf)@ + encode(frame.model()));
            }
        },
        Frame::Null => {
            buf.push(36);
            buf.push(45);
            buf.push(49);
            buf.push(13);
            buf.push(10);
            proof {
                assert(final(buf)@ =~= old(buf)@ + encode(frame.model()));
            }
        },
        Frame::Bulk(val) => {
            buf.push(36);
            write_decimal(buf, val.len() as u64);
            write_bytes(buf, val.as_slice());
            buf.push(13);
            buf.push(10);
            proof {
                assert(final(buf)@ =~= old(buf)@ + encode(frame.model()));
            }
        },
        Frame::Array(val) => {
            proof {
                lemma_array_model(*val);
            }
            buf.push(42);
            write_decimal(buf, val.len() as u64);
            write_items(buf, val);
            proof {
                assert(final(buf)@ =~= old(buf)@ + encode(frame.model()));
            }
        },
    }
}

/// Writes the encodings of the frames of `items`, one after the other.
pub fn write_items(buf: &mut Vec<u8>, items: &Vec<Frame>)
    ensures
        final(buf)@ == old(buf)@ + encode_items(models(items@)),
    decreases items,
{
    let ghost ms = models(items@);
    let mut i: usize = 0;
    while i < items.len()
        invariant
            i <= items@.len(),
            ms == models(items@),
            buf@ == old(buf)@ + encode_items(ms.subrange(0, i as int)),
        decreases items@.len() - i,
    {
        proof {
            broadcast use vstd::std_specs::vec::axiom_vec_index_decreases;
            assert(decreases_to!(items => items[i as int]));
        }
        write_value(buf, &items[i]);
        proof {
            let t = ms.subrange(0, i + 1);
            assert(t.subrange(0, t.len() - 1) =~= ms.subrange(0, i as int));
            assert(buf@ =~= old(buf)@ + encode_items(ms.subrange(0, i + 1)));
        }
        i = i + 1;
    }
    proof {
        assert(ms.subrange(0, items@.len() as int) =~= ms);
    }
}

/// Writes the encoding of `frame`; an array is written as its header followed
/// by each element.
pub fn write_frame(buf: &mut Vec<u8>, frame: &Frame)
    ensures
        final(buf)@ == old(buf)@ + encode(frame.model()),
{
    write_value(buf, frame);
}

// ---------------------------------------------------------------------------
// Decimal lines
// ---------------------------------------------------------------------------
pub proof fn lemma_find_crlf_at(buf: Seq<u8>, i: int, j: int)
    requires
        0 <= i <= j,
        j + 1 < buf.len(),
        crlf_at(buf, j),
        forall|k: int| i <= k < j ==> !#[trigger] crlf_at(buf, k),
    ensures
        find_crlf(buf, i) == Some(j),
    decreases j - i,
{
    if i < j {
        assert(!crlf_at(buf, i));
        lemma_find_crlf_at(buf, i + 1, j);
    }
}

pub proof fn lemma_dec_digits(n: nat)
    ensures
        dec_digits(n).len() >= 1,
        forall|k: int| 0 <= k < dec_digits(n).len() ==> is_digit(#[trigger] dec_digits(n)[k]),
        digits_value(dec_digits(n)) == n,
    decreases n,
{
    if n >= 10 {
        lemma_dec_digits(n / 10);
        let d = dec_digits(n);
        assert(d.drop_last() =~= dec_digits(n / 10));
        assert(d.last() == (48 + n % 10) as u8);
        assert((48 + n % 10) as u8 == 48 + n % 10);
        assert(digits_value(d) == digits_value(dec_digits(n / 10)) * 10 + n % 10);
        assert((n / 10) * 10 + n % 10 == n);
    } else {
        let d = dec_digits(n);
        assert(d.drop_last() =~= Seq::<u8>::empty());
        assert(digits_value(d.drop_last()) == 0);
        assert(d.last() == (48 + n) as u8);
    }
}

pub proof fn lemma_leading_digits_all(s: Seq<u8>)
    requires
        forall|k: int| 0 <= k < s.len() ==> is_digit(#[trigger] s[k]),
    ensures
        leading_digits(s) == s.len(),
    decreases s.len(),
{
    if s.len() > 0 {
        assert(is_digit(s[0]));
        let t = s.drop_first();
        assert forall|k: int| 0 <= k < t.len() implies is_digit(#[trigger] t[k]) by {
            assert(t[k] == s[k + 1]);
        }
        lemma_leading_digits_all(t);
    }
}

/// The decimal digits of a `u64` read back by `atoi` give the same `u64`.
pub proof fn lemma_atoi_dec_digits(n: nat)
    requires
        n <= u64::MAX,
    ensures
        spec_atoi_u64(dec_digits(n)) == Some(n as u64),
{
    lemma_dec_digits(n);
    let d = dec_digits(n);
    lemma_leading_digits_all(d);
    assert(is_digit(d[0]));
    assert(d.take(d.len() as int) =~= d);
}

pub proof fn lemma_scan_encoded_decimal(buf: Seq<u8>, p: int, n: nat)
    requires
        n <= u64::MAX,
        0 <= p,
        p + encode_decimal(n).len() <= buf.len(),
        buf.subrange(p, p + encode_decimal(n).len()) == encode_decimal(n),
    ensures
        scan_decimal(buf, p) == DecimalScan::Value(n as u64, p + encode_decimal(n).len()),
{
    let d = dec_digits(n);
    let e = encode_decimal(n);
    lemma_dec_digits(n);
    let j = p + d.len();
    assert(buf[j] == e[d.len() as int]);
    assert(buf[j + 1] == e[d.len() as int + 1]);
    assert forall|k: int| p <= k < j implies !#[trigger] crlf_at(buf, k) by {
        assert(buf[k] == e[k - p]);
        assert(e[k - p] == d[k - p]);
        assert(is_digit(d[k - p]));
    }
    lemma_find_crlf_at(buf, p, j);
    assert(buf.subrange(p, j) =~= d) by {
        assert forall|k: int| 0 <= k < d.len() implies buf.subrange(p, j)[k] == d[k] by {
            assert(buf[p + k] == e[k]);
        }
    }
    lemma_atoi_dec_digits(n);
}

// ---------------------------------------------------------------------------
// The laws of the wire format
// ---------------------------------------------------------------------------
/// No `\r\n` pair lies inside `s`.
pub open spec fn no_crlf(s: Seq<u8>) -> bool {
    forall|k: int| 0 <= k && k + 1 < s.len() ==> !#[trigger] crlf_at(s, k)
}

/// The frames that come back unchanged from the wire: texts without `\r\n`
/// and counts that fit the integer types.
pub open spec fn wire_safe(f: FrameModel) -> bool
    decreases f,
{
    match f {
        FrameModel::Simple(s) => no_crlf(encode_utf8(s)),
        FrameModel::Error(s) => no_crlf(encode_utf8(s)),
        FrameModel::Integer(_) => true,
        FrameModel::Null => true,
        FrameModel::Bulk(b) => b.len() + 2 <= usize::MAX,
        FrameModel::Array(items) => items.len() <= u64::MAX && forall|i: int|
            0 <= i < items.len() ==> wire_safe(#[trigger] items[i]),
    }
}

pub proof fn lemma_encode_items_front(items: Seq<FrameModel>)
    requires
        items.len() > 0,
    ensures
        encode_items(items) == encode(items[0]) + encode_items(items.subrange(1, items.len() as int)),
    decreases items.len(),
{
    let n = items.len() as int;
    let init = items.subrange(0, n - 1);
    if n == 1 {
        assert(init =~= Seq::<FrameModel>::empty());
        assert(items.subrange(1, n) =~= Seq::<FrameModel>::empty());
        assert(encode_items(items) =~= encode(items[0]) + encode_items(items.subrange(1, n)));
    } else {
        lemma_encode_items_front(init);
        let tail = items.subrange(1, n);
        assert(tail.subrange(0, tail.len() - 1) =~= init.subrange(1, init.len() as int));
        assert(tail[tail.len() - 1] == items[n - 1]);
        assert(init[0] == items[0]);
        assert(encode_items(items) =~= encode(items[0]) + encode_items(tail));
    }
}

pub proof fn lemma_encode_nonempty(f: FrameModel)
    ensures
        encode(f).len() >= 1,
        encode(f)[0] == 45 <==> f is Error,
{
}

proof fn lemma_sub(buf: Seq<u8>, pos: int, e: Seq<u8>, a: int, b: int)
    requires
        0 <= pos,
        pos + e.len() <= buf.len(),
        buf.subrange(pos, pos + e.len()) == e,
        0 <= a <= b <= e.len(),
    ensures
        buf.subrange(pos + a, pos + b) == e.subrange(a, b),
{
    assert forall|k: int| 0 <= k < b - a implies buf.subrange(pos + a, pos + b)[k] == e.subrange(
        a,
        b,
    )[k] by {
        assert(buf.subrange(pos, pos + e.len())[a + k] == e[a + k]);
    }
    assert(buf.subrange(pos + a, pos + b) =~= e.subrange(a, b));
}

/// A wire-safe frame written at `pos` is decoded back from `pos`.
pub proof fn lemma_decode_encoded(buf: Seq<u8>, pos: int, f: FrameModel)
    requires
        wire_safe(f),
        0 <= pos,
        pos + encode(f).len() <= buf.len(),
        buf.subrange(pos, pos + encode(f).len()) == encode(f),
    ensures
        decode_frame(buf, pos) == Decoded::Done(f, pos + encode(f).len()),
    decreases f,
{
    let e = encode(f);
    lemma_encode_nonempty(f);
    assert(buf[pos] == e[0]) by {
        assert(buf.subrange(pos, pos + e.len())[0] == e[0]);
    }
    let p = pos + 1;
    match f {
        FrameModel::Simple(s) => {
            simple_line(buf, pos, s, 43);
        },
        FrameModel::Error(s) => {
            simple_line(buf, pos, s, 45);
        },
        FrameModel::Integer(v) => {
            lemma_sub(buf, pos, e, 1, e.len() as int);
            assert(e.subrange(1, e.len() as int) =~= encode_decimal(v as nat));
            lemma_scan_encoded_decimal(buf, p, v as nat);
        },
        FrameModel::Null => {
            assert(buf[p] == e[1]) by {
                assert(buf.subrange(pos, pos + e.len())[1] == e[1]);
            }
        },
        FrameModel::Bulk(b) => {
            let d = encode_decimal(b.len());
            let dl = d.len() as int;
            let bl = b.len() as int;
            lemma_sub(buf, pos, e, 1, 1 + dl);
            assert(e.subrange(1, 1 + dl) =~= d);
            lemma_dec_digits(b.len());
            assert(buf[p] == e[1]) by {
                assert(buf.subrange(pos, pos + e.len())[1] == e[1]);
            }
            assert(is_digit(d[0]));
            lemma_scan_encoded_decimal(buf, p, b.len());
            let q = p + d.len();
            lemma_sub(buf, pos, e, 1 + dl, 1 + dl + bl);
            assert(e.subrange(1 + dl, 1 + dl + bl) =~= b);
        },
        FrameModel::Array(items) => {
            let d = encode_decimal(items.len());
            let dl = d.len() as int;
            lemma_sub(buf, pos, e, 1, 1 + dl);
            assert(e.subrange(1, 1 + dl) =~= d);
            lemma_scan_encoded_decimal(buf, p, items.len());
            let q = p + d.len();
            let ei = encode_items(items);
            lemma_sub(buf, pos, e, 1 + dl, e.len() as int);
            assert(e.subrange(1 + dl, e.len() as int) =~= ei);
            lemma_decode_encoded_items(buf, q, items);
        },
    }
}

proof fn simple_line(buf: Seq<u8>, pos: int, s: Seq<char>, tag: u8)
    requires
        tag == 43 || tag == 45,
        no_crlf(encode_utf8(s)),
        0 <= pos,
        pos + 1 + encode_utf8(s).len() + 2 <= buf.len(),
        buf.subrange(pos, pos + 1 + encode_utf8(s).len() + 2) == seq![tag] + encode_utf8(s)
            + crlf(),
    ensures
        find_crlf(buf, pos + 1) == Some(pos + 1 + encode_utf8(s).len()),
        buf.subrange(pos + 1, pos + 1 + encode_utf8(s).len()) == encode_utf8(s),
        valid_utf8(encode_utf8(s)),
        decode_utf8(encode_utf8(s)) == s,
{
    let u = encode_utf8(s);
    let ul = u.len() as int;
    let e = seq![tag] + u + crlf();
    let p = pos + 1;
    let j = p + u.len();
    lemma_sub(buf, pos, e, 1, 1 + ul);
    assert(e.subrange(1, 1 + ul) =~= u);
    assert(buf[j] == e[1 + ul]) by {
        assert(buf.subrange(pos, pos + e.len())[1 + ul] == e[1 + ul]);
    }
    assert(buf[j + 1] == e[2 + ul]) by {
        assert(buf.subrange(pos, pos + e.len())[2 + ul] == e[2 + ul]);
    }
    assert forall|k: int| p <= k < j implies !#[trigger] crlf_at(buf, k) by {
        assert(buf[k] == e[k - pos]) by {
            assert(buf.subrange(pos, pos + e.len())[k - pos] == e[k - pos]);
        }
        assert(buf[k + 1] == e[k + 1 - pos]) by {
            assert(buf.subrange(pos, pos + e.len())[k + 1 - pos] == e[k + 1 - pos]);
        }
        if k + 1 < j {
            assert(!crlf_at(u, k - p));
        }
    }
    lemma_find_crlf_at(buf, p, j);
    encode_utf8_valid_utf8(s);
    encode_utf8_decode_utf8(s);
}

pub proof fn lemma_decode_encoded_items(buf: Seq<u8>, pos: int, items: Seq<FrameModel>)
    requires
        forall|i: int| 0 <= i < items.len() ==> wire_safe(#[trigger] items[i]),
        0 <= pos,
        pos + encode_items(items).len() <= buf.len(),
        buf.subrange(pos, pos + encode_items(items).len()) == encode_items(items),
    ensures
        decode_items(buf, pos, items.len()) == DecodedItems::Done(
            items,
            pos + encode_items(items).len(),
        ),
    decreases items,
{
    if items.len() == 0 {
        assert(items =~= Seq::<FrameModel>::empty());
    } else {
        let ei = encode_items(items);
        let tail = items.subrange(1, items.len() as int);
        lemma_encode_items_front(items);
        let e0 = encode(items[0]);
        lemma_encode_nonempty(items[0]);
        lemma_sub(buf, pos, ei, 0, e0.len() as int);
        assert(ei.subrange(0, e0.len() as int) =~= e0);
        assert(buf.subrange(pos + 0, pos + e0.len()) == buf.subrange(pos, pos + e0.len()));
        lemma_decode_encoded(buf, pos, items[0]);
        let q = pos + e0.len();
        lemma_sub(buf, pos, ei, e0.len() as int, ei.len() as int);
        assert(ei.subrange(e0.len() as int, ei.len() as int) =~= encode_items(tail));
        assert forall|i: int| 0 <= i < tail.len() implies wire_safe(#[trigger] tail[i]) by {
            assert(tail[i] == items[i + 1]);
        }
        lemma_decode_encoded_items(buf, q, tail);
        assert(seq![items[0]] + tail =~= items);
    }
}

/// A decoded frame ends where the scanner says the frame ends; the decoder
/// runs short or gives up exactly where the scanner does, unless it stops
/// earlier at text that is no UTF-8.
pub open spec fn agrees(d: Decoded, s: Scan) -> bool {
    match d {
        Decoded::Done(_, q) => s == Scan::Done(q),
        Decoded::Incomplete => s is Incomplete,
        Decoded::Aborts => s is Aborts,
        Decoded::Invalid => true,
    }
}

pub open spec fn agrees_items(d: DecodedItems, s: Scan) -> bool {
    match d {
        DecodedItems::Done(_, q) => s == Scan::Done(q),
        DecodedItems::Incomplete => s is Incomplete,
        DecodedItems::Aborts => s is Aborts,
        DecodedItems::Invalid => true,
    }
}

pub proof fn lemma_decode_agrees(buf: Seq<u8>, pos: int)
    ensures
        agrees(decode_frame(buf, pos), scan_frame(buf, pos)),
    decreases buf.len() - pos, 0int, 0nat,
{
    if pos < 0 || pos >= buf.len() {
    } else {
        let p = pos + 1;
        lemma_find_crlf(buf, p);
        if buf[pos] == 42 {
            if let DecimalScan::Value(n, q) = scan_decimal(buf, p) {
                lemma_decode_items_agree(buf, q, n as nat);
            }
        }
    }
}

pub proof fn lemma_decode_items_agree(buf: Seq<u8>, pos: int, n: nat)
    ensures
        agrees_items(decode_items(buf, pos, n), scan_items(buf, pos, n)),
    decreases buf.len() - pos, 1int, n,
{
    if n > 0 {
        lemma_decode_agrees(buf, pos);
        if let Decoded::Done(f, q) = decode_frame(buf, pos) {
            if pos < q <= buf.len() {
                lemma_decode_items_agree(buf, q, (n - 1) as nat);
            }
        }
    }
}

/// Law (round trip): what `write_frame` writes for a wire-safe frame,
/// `Frame::check` accepts up to its last byte and `Frame::parse` reads back
/// as the same frame, whatever bytes follow it in the buffer.
pub proof fn law_write_then_read(f: FrameModel, rest: Seq<u8>)
    requires
        wire_safe(f),
    ensures
        scan_frame(encode(f) + rest, 0) == Scan::Done(encode(f).len() as int),
        decode_frame(encode(f) + rest, 0) == Decoded::Done(f, encode(f).len() as int),
{
    let buf = encode(f) + rest;
    assert(buf.subrange(0, encode(f).len() as int) =~= encode(f));
    lemma_decode_encoded(buf, 0, f);
    lemma_decode_agrees(buf, 0);
}

/// The frame holds no bulk and no null frame: none of its bytes are skipped
/// by count rather than looked at.
pub open spec fn no_skips(f: FrameModel) -> bool
    decreases f,
{
    match f {
        FrameModel::Bulk(_) => false,
        FrameModel::Null => false,
        FrameModel::Array(items) => forall|i: int| 0 <= i < items.len() ==> no_skips(#[trigger] items[i]),
        _ => true,
    }
}

/// The bytes of `buf` from `pos` on are the first ones of `e`, and fewer.
pub open spec fn cut_of(buf: Seq<u8>, pos: int, e: Seq<u8>) -> bool {
    &&& 0 <= pos <= buf.len()
    &&& buf.len() < pos + e.len()
    &&& forall|i: int| 0 <= i < buf.len() - pos ==> #[trigger] buf[pos + i] == e[i]
}

proof fn lemma_no_crlf_from(buf: Seq<u8>, i: int)
    requires
        0 <= i,
        forall|k: int| i <= k && k + 1 < buf.len() ==> !#[trigger] crlf_at(buf, k),
    ensures
        find_crlf(buf, i) is None,
    decreases buf.len() - i,
{
    if i + 1 < buf.len() {
        assert(!crlf_at(buf, i));
        lemma_no_crlf_from(buf, i + 1);
    }
}

/// A decimal line cut short holds no `\r\n`: reading it runs out.
proof fn lemma_decimal_cut(buf: Seq<u8>, p: int, n: nat)
    requires
        cut_of(buf, p, encode_decimal(n)),
    ensures
        scan_decimal(buf, p) is Incomplete,
{
    let d = dec_digits(n);
    let e = encode_decimal(n);
    lemma_dec_digits(n);
    assert forall|k: int| p <= k && k + 1 < buf.len() implies !#[trigger] crlf_at(buf, k) by {
        assert(buf[p + (k - p)] == e[k - p]);
        assert(e[k - p] == d[k - p]);
        assert(is_digit(d[k - p]));
    }
    lemma_no_crlf_from(buf, p);
}

/// The bytes of a wire-safe frame cut short are scanned as incomplete, or the
/// scanner gives up inside a bulk or null frame's skipped bytes.
proof fn lemma_scan_cut(buf: Seq<u8>, pos: int, f: FrameModel)
    requires
        wire_safe(f),
        cut_of(buf, pos, encode(f)),
    ensures
        scan_frame(buf, pos) is Incomplete || scan_frame(buf, pos) is Aborts,
        no_skips(f) ==> scan_frame(buf, pos) is Incomplete,
    decreases f,
{
    let e = encode(f);
    let c = buf.len() - pos;
    if c > 0 {
        assert(buf[pos + 0] == e[0]);
        let p = pos + 1;
        match f {
            FrameModel::Simple(s) => {
                text_cut(buf, pos, s, 43);
            },
            FrameModel::Error(s) => {
                text_cut(buf, pos, s, 45);
            },
            FrameModel::Integer(v) => {
                let d = encode_decimal(v as nat);
                assert forall|i: int| 0 <= i < buf.len() - p implies #[trigger] buf[p + i] == d[i] by {
                    assert(buf[pos + (i + 1)] == e[i + 1]);
                }
                lemma_decimal_cut(buf, p, v as nat);
            },
            FrameModel::Null => {
                if c > 1 {
                    assert(buf[pos + 1] == e[1]);
                }
            },
            FrameModel::Bulk(b) => {
                if c > 1 {
                    let d = encode_decimal(b.len());
                    lemma_dec_digits(b.len());
                    assert(buf[pos + 1] == e[1]);
                    assert(e[1] == d[0]);
                    assert(is_digit(d[0]));
                    if buf.len() < p + d.len() {
                        assert forall|i: int| 0 <= i < buf.len() - p implies #[trigger] buf[p + i] == d[i] by {
                            assert(buf[pos + (i + 1)] == e[i + 1]);
                        }
                        lemma_decimal_cut(buf, p, b.len());
                    } else {
                        assert(buf.subrange(p, p + d.len()) =~= d) by {
                            assert forall|i: int| 0 <= i < d.len() implies #[trigger] buf.subrange(p, p + d.len())[i] == d[i] by {
                                assert(buf[pos + (i + 1)] == e[i + 1]);
                            }
                        }
                        lemma_scan_encoded_decimal(buf, p, b.len());
                    }
                }
            },
            FrameModel::Array(items) => {
                if c > 1 {
                    let d = encode_decimal(items.len());
                    let ei = encode_items(items);
                    lemma_dec_digits(items.len());
                    if buf.len() < p + d.len() {
                        assert forall|i: int| 0 <= i < buf.len() - p implies #[trigger] buf[p + i] == d[i] by {
                            assert(buf[pos + (i + 1)] == e[i + 1]);
                        }
                        lemma_decimal_cut(buf, p, items.len());
                    } else {
                        assert(buf.subrange(p, p + d.len()) =~= d) by {
                            assert forall|i: int| 0 <= i < d.len() implies #[trigger] buf.subrange(p, p + d.len())[i] == d[i] by {
                                assert(buf[pos + (i + 1)] == e[i + 1]);
                            }
                        }
                        lemma_scan_encoded_decimal(buf, p, items.len());
                        let q = p + d.len();
                        assert forall|i: int| 0 <= i < buf.len() - q implies #[trigger] buf[q + i] == ei[i] by {
                            assert(buf[pos + (1 + d.len() + i)] == e[1 + d.len() + i]);
                        }
                        lemma_items_cut(buf, q, items);
                    }
                }
            },
        }
    }
}

proof fn text_cut(buf: Seq<u8>, pos: int, s: Seq<char>, tag: u8)
    requires
        no_crlf(encode_utf8(s)),
        cut_of(buf, pos, seq![tag] + encode_utf8(s) + crlf()),
        buf.len() > pos,
    ensures
        find_crlf(buf, pos + 1) is None,
{
    let u = encode_utf8(s);
    let e = seq![tag] + u + crlf();
    let p = pos + 1;
    assert forall|k: int| p <= k && k + 1 < buf.len() implies !#[trigger] crlf_at(buf, k) by {
        let j = k - pos;
        assert(buf[pos + j] == e[j]);
        assert(buf[pos + (j + 1)] == e[j + 1]);
        if j + 1 <= u.len() {
            assert(e[j] == u[j - 1]);
            assert(e[j + 1] == u[j]);
            assert(!crlf_at(u, j - 1));
        } else {
            assert(e[j + 1] == 13);
        }
    }
    lemma_no_crlf_from(buf, p);
}

/// The bytes of several wire-safe frames cut short are scanned as incomplete,
/// or the scanner gives up inside a bulk or null frame's skipped bytes.
proof fn lemma_items_cut(buf: Seq<u8>, pos: int, items: Seq<FrameModel>)
    requires
        forall|i: int| 0 <= i < items.len() ==> wire_safe(#[trigger] items[i]),
        cut_of(buf, pos, encode_items(items)),
    ensures
        scan_items(buf, pos, items.len()) is Incomplete || scan_items(buf, pos, items.len()) is Aborts,
        (forall|i: int| 0 <= i < items.len() ==> no_skips(#[trigger] items[i])) ==> scan_items(
            buf,
            pos,
            items.len(),
        ) is Incomplete,
    decreases items,
{
    let ei = encode_items(items);
    if items.len() == 0 {
        assert(ei.len() == 0);
    } else {
        let tail = items.subrange(1, items.len() as int);
        lemma_encode_items_front(items);
        let e0 = encode(items[0]);
        lemma_encode_nonempty(items[0]);
        if buf.len() < pos + e0.len() {
            assert forall|i: int| 0 <= i < buf.len() - pos implies #[trigger] buf[pos + i] == e0[i] by {
                assert(buf[pos + i] == ei[i]);
            }
            lemma_scan_cut(buf, pos, items[0]);
        } else {
            assert(buf.subrange(pos, pos + e0.len()) =~= e0) by {
                assert forall|i: int| 0 <= i < e0.len() implies #[trigger] buf.subrange(pos, pos + e0.len())[i] == e0[i] by {
                    assert(buf[pos + i] == ei[i]);
                }
            }
            lemma_decode_encoded(buf, pos, items[0]);
            lemma_decode_agrees(buf, pos);
            let q = pos + e0.len();
            assert forall|i: int| 0 <= i < buf.len() - q implies #[trigger] buf[q + i] == encode_items(tail)[i] by {
                assert(buf[pos + (e0.len() + i)] == ei[e0.len() + i]);
            }
            assert forall|i: int| 0 <= i < tail.len() implies wire_safe(#[trigger] tail[i]) by {
                assert(tail[i] == items[i + 1]);
            }
            lemma_items_cut(buf, q, tail);
            if forall|i: int| 0 <= i < items.len() ==> no_skips(#[trigger] items[i]) {
                assert forall|i: int| 0 <= i < tail.len() implies no_skips(#[trigger] tail[i]) by {
                    assert(tail[i] == items[i + 1]);
                }
            }
        }
    }
}

/// Law (cut frames): the bytes `write_frame` writes for a wire-safe frame,
/// cut anywhere short of their end, are never taken by `Frame::check` for a
/// whole frame nor for a broken one. They are incomplete, unless the cut falls
/// inside the bytes of a bulk or null frame, which the scanner skips by count
/// and gives up on; a frame without bulk and null frames always reads as
/// incomplete.
pub proof fn law_cut_frame_is_incomplete(f: FrameModel, m: int)
    requires
        wire_safe(f),
        0 <= m < encode(f).len(),
    ensures
        scan_frame(encode(f).subrange(0, m), 0) is Incomplete || scan_frame(
            encode(f).subrange(0, m),
            0,
        ) is Aborts,
        no_skips(f) ==> scan_frame(encode(f).subrange(0, m), 0) is Incomplete,
{
    let buf = encode(f).subrange(0, m);
    assert forall|i: int| 0 <= i < buf.len() - 0 implies #[trigger] buf[0 + i] == encode(f)[i] by {
    }
    lemma_scan_cut(buf, 0, f);
}

// ---------------------------------------------------------------------------
// Copies
// ---------------------------------------------------------------------------
impl Frame {
    /// A copy of the frame.
    pub fn duplicate(&self) -> (r: Frame)
        ensures
            r.model() == self.model(),
        decreases self,
    {
        match self {
            Frame::Integer(v) => Frame::Integer(*v),
            Frame::Simple(s) => Frame::Simple(s.clone()),
            Frame::Error(s) => Frame::Error(s.clone()),
            Frame::Bulk(b) => Frame::Bulk(b.clone()),
            Frame::Null => Frame::Null,
            Frame::Array(items) => {
                let copy = duplicate_items(items);
                proof {
                    lemma_array_model(*items);
                    lemma_array_model(copy);
                }
                Frame::Array(copy)
            },
        }
    }
}

/// Copies of the frames of `items`, in order.
fn duplicate_items(items: &Vec<Frame>) -> (r: Vec<Frame>)
    ensures
        models(r@) == models(items@),
    decreases items,
{
    let mut out: Vec<Frame> = Vec::new();
    let mut i: usize = 0;
    while i < items.len()
        invariant
            i <= items@.len(),
            out@.len() == i,
            forall|j: int| 0 <= j < i ==> (#[trigger] out@[j]).model() == items@[j].model(),
        decreases items@.len() - i,
    {
        proof {
            broadcast use vstd::std_specs::vec::axiom_vec_index_decreases;
            assert(decreases_to!(items => items[i as int]));
        }
        let f = items[i].duplicate();
        out.push(f);
        i = i + 1;
    }
    proof {
        assert(models(out@) =~= models(items@));
    }
    out
}

// ---------------------------------------------------------------------------
// Reading frames from a connection's buffer
// ---------------------------------------------------------------------------
/// The read side of a connection: the bytes received and not yet consumed.
pub struct Connection {
    pub buffer: Vec<u8>,
}

impl Connection {
    pub fn new() -> (c: Connection)
        ensures
            c.buffer@ == Seq::<u8>::empty(),
    {
        Connection { buffer: Vec::new() }
    }

    /// Whether reading a frame from the buffer would give up (it would advance
    /// past the end of the buffer).
    pub fn parse_would_abort(&self) -> (r: bool)
        ensures
            r == (scan_frame(self.buffer@, 0) is Aborts),
    {
        would_abort(self.buffer.as_slice())
    }

    /// Takes one whole frame off the front of the buffer (see `take_frame`).
    pub fn parse_frame(&mut self) -> (r: Result<Option<Frame>, Error>)
        requires
            !(scan_frame(old(self).buffer@, 0) is Aborts),
        ensures
            took_frame(old(self).buffer@, final(self).buffer@, r),
    {
        take_frame(&mut self.buffer)
    }
}

/// Whether checking for a frame at the front of `buffer` would give up (it
/// would advance past the end of the buffer).
pub fn would_abort(buffer: &[u8]) -> (r: bool)
    ensures
        r == (scan_frame(buffer@, 0) is Aborts),
{
    let mut cursor = Cursor::new(buffer);
    Frame::try_check(&mut cursor).is_none()
}

/// `r` and the buffer `after` are what taking a frame off the front of `before`
/// gives: the frame and the bytes after it when `before` starts with a whole,
/// valid frame; `Ok(None)` and the buffer unchanged when it holds only the
/// start of one; an error otherwise.
pub open spec fn took_frame(before: Seq<u8>, after: Seq<u8>, r: Result<Option<Frame>, Error>) -> bool {
    match scan_frame(before, 0) {
        Scan::Done(q) => match decode_frame(before, 0) {
            Decoded::Done(f, _) => r matches Ok(Some(frame)) && frame.model() == f && after
                == before.subrange(q, before.len() as int),
            _ => r matches Err(Error::Other(_)) && after == before,
        },
        Scan::Incomplete => r matches Ok(None) && after == before,
        _ => r matches Err(Error::Other(_)) && after == before,
    }
}

/// Takes one whole frame off the front of `buffer`: `Ok(None)` when the buffer
/// does not yet hold a whole frame (the buffer is then unchanged).
pub fn take_frame(buffer: &mut Vec<u8>) -> (r: Result<Option<Frame>, Error>)
    requires
        !(scan_frame(old(buffer)@, 0) is Aborts),
    ensures
        took_frame(old(buffer)@, final(buffer)@, r),
{
    let ghost data = buffer@;
    proof {
        lemma_decode_agrees(data, 0);
        lemma_scan_frame_bounds(data, 0);
    }
    let (res, len) = {
        let mut cursor = Cursor::new(buffer.as_slice());
        match Frame::check(&mut cursor) {
            Ok(()) => {
                let len = cursor.position();
                cursor.set_position(0);
                (Some(Frame::parse(&mut cursor)), len)
            },
            Err(Error::Incomplete) => (None, 0),
            Err(e) => (Some(Err(e)), 0),
        }
    };
    match res {
        None => Ok(None),
        Some(Ok(frame)) => {
            let rest = buffer.split_off(len);
            *buffer = rest;
            Ok(Some(frame))
        },
        Some(Err(e)) => Err(e),
    }
}

} // verus!
