//! The limits of the JSON reader.
//!
//! `rustc_serialize` reads JSON with a parser that does not return on every
//! text, and misreads some. It panics behind a comma that an object ends on.
//! It adds up the digits of an exponent in a machine word, which overflows.
//! It keeps the keys of the objects it is inside in one buffer that it
//! indexes with 16 bits, and counts the items of an array in 32 bits. And it
//! calls itself once for each level of nesting. One pass over the bytes tells
//! whether a text stays clear of all of these. The library hands the reader
//! no other text.
//!
//! The pass knows strings from the rest as the parser does, by the quote and
//! the backslash, and knows what is open, an array or an object. It knows no
//! more grammar: a colon may stand anywhere in an object, and a comma
//! anywhere. Of JSON it refuses only what is beyond a limit; of texts that
//! are no JSON it takes many, and those the parser rejects.

use vstd::prelude::*;

verus! {

/// The most arrays and objects that may be open at once.
pub const MAX_DEPTH: usize = 128;

/// The most bytes that the keys of the open objects may have together: what
/// 16 bits index.
pub const MAX_KEYS: usize = 0xffff;

/// The most commas between the items of one array: what 32 bits count.
pub const MAX_COMMAS: u64 = 0xffff_ffff;

/// The bytes that the pass knows.
pub const QUOTE: u8 = 0x22;

pub const BACKSLASH: u8 = 0x5c;

pub const COMMA: u8 = 0x2c;

pub const COLON: u8 = 0x3a;

pub const ARRAY_OPEN: u8 = 0x5b;

pub const ARRAY_CLOSE: u8 = 0x5d;

pub const OBJECT_OPEN: u8 = 0x7b;

pub const OBJECT_CLOSE: u8 = 0x7d;

pub const PLUS: u8 = 0x2b;

pub const MINUS: u8 = 0x2d;

pub const LOWER_E: u8 = 0x65;

pub const UPPER_E: u8 = 0x45;

pub const LOWER_U: u8 = 0x75;

pub const SPACE: u8 = 0x20;

pub const TAB: u8 = 0x09;

pub const LINE_FEED: u8 = 0x0a;

pub const CARRIAGE_RETURN: u8 = 0x0d;

/// An array or an object that is open.
#[derive(Clone, Copy)]
pub struct Frame {
    /// It is an array.
    pub array: bool,
    /// The bytes of the key whose value the pass is in, in an object.
    pub key: usize,
    /// The commas in it so far.
    pub commas: u64,
}

/// What one pass has seen of a text.
pub struct Scan {
    /// A string is open.
    pub in_string: bool,
    /// The last byte was a backslash that escapes the next one.
    pub escaped: bool,
    /// The hexadecimal digits that an escape `\u` still lacks.
    pub hex_left: int,
    /// The number that the digits of that escape give so far.
    pub hex_value: int,
    /// The bytes that the string which is open, or which closed last, has
    /// once its escapes are resolved; counted up to `MAX_KEYS + 1`.
    pub string_len: int,
    /// The arrays and objects that are open, the innermost last.
    pub open: Seq<Frame>,
    /// Only white space came since a comma.
    pub after_comma: bool,
    /// The exponent so far, where only signs and digits came since its mark.
    pub exponent: Option<int>,
    /// The text is beyond a limit.
    pub refused: bool,
}

/// White space between the tokens of JSON.
pub open spec fn is_space(b: u8) -> bool {
    b == SPACE || b == TAB || b == LINE_FEED || b == CARRIAGE_RETURN
}

/// The number that a decimal digit stands for, if the byte is one.
pub open spec fn digit(b: u8) -> Option<int> {
    if 0x30 <= b <= 0x39 {
        Some(b - 0x30)
    } else {
        None
    }
}

/// The number that a hexadecimal digit stands for, if the byte is one.
pub open spec fn hex_digit(b: u8) -> Option<int> {
    if 0x30 <= b <= 0x39 {
        Some(b - 0x30)
    } else if 0x61 <= b <= 0x66 {
        Some(b - 0x61 + 10)
    } else if 0x41 <= b <= 0x46 {
        Some(b - 0x41 + 10)
    } else {
        None
    }
}

/// The bytes that the escape `\u` of a number adds to a string: those of the
/// character in UTF-8. The first half of a pair stands for the four bytes of
/// the pair, the second half for none.
pub open spec fn escape_len(value: int) -> int {
    if 0xd800 <= value <= 0xdbff {
        4
    } else if 0xdc00 <= value <= 0xdfff {
        0
    } else if value < 0x80 {
        1
    } else if value < 0x800 {
        2
    } else {
        3
    }
}

/// A count of bytes, up to `MAX_KEYS + 1`.
pub open spec fn capped(n: int) -> int {
    if n > MAX_KEYS {
        MAX_KEYS + 1
    } else {
        n
    }
}

/// The bytes that the keys of the open objects have together.
pub open spec fn keys_len(open: Seq<Frame>) -> int
    decreases open.len(),
{
    if open.len() == 0 {
        0
    } else {
        keys_len(open.drop_last()) + open.last().key
    }
}

/// The exponent after one more byte outside a string: `e` and `E` set the
/// mark, a sign right behind the mark keeps it, and a digit counts.
pub open spec fn exponent_after(exponent: Option<int>, b: u8) -> Option<int> {
    if b == LOWER_E || b == UPPER_E {
        Some(0)
    } else if digit(b) is Some {
        match exponent {
            Some(n) => Some(n * 10 + digit(b)->0),
            None => None,
        }
    } else if (b == PLUS || b == MINUS) && exponent == Some(0int) {
        Some(0)
    } else {
        None
    }
}

/// What is open after one more byte outside a string. A bracket opens or
/// closes; in an object a colon makes the string that closed last the key;
/// in an array a comma counts.
pub open spec fn open_after(s: Scan, b: u8) -> Seq<Frame> {
    if b == ARRAY_OPEN || b == OBJECT_OPEN {
        s.open.push(Frame { array: b == ARRAY_OPEN, key: 0, commas: 0 })
    } else if s.open.len() == 0 {
        s.open
    } else if b == ARRAY_CLOSE || b == OBJECT_CLOSE {
        s.open.drop_last()
    } else if b == COLON && !s.open.last().array {
        s.open.drop_last().push(Frame { key: s.string_len as usize, ..s.open.last() })
    } else if b == COMMA && s.open.last().array {
        s.open.drop_last().push(
            Frame { commas: (s.open.last().commas + 1) as u64, ..s.open.last() },
        )
    } else {
        s.open
    }
}

/// The byte, outside a string, puts the text beyond a limit.
pub open spec fn refuses(s: Scan, b: u8) -> bool {
    ||| s.after_comma && b == OBJECT_CLOSE
    ||| (b == ARRAY_OPEN || b == OBJECT_OPEN) && s.open.len() >= MAX_DEPTH
    ||| b == COLON && s.open.len() > 0 && !s.open.last().array && keys_len(s.open.drop_last())
        + s.string_len > MAX_KEYS
    ||| b == COMMA && s.open.len() > 0 && s.open.last().array && s.open.last().commas
        >= MAX_COMMAS
    ||| exponent_after(s.exponent, b) matches Some(n) && n > usize::MAX
}

/// The pass after one more byte inside a string.
pub open spec fn step_inside(s: Scan, b: u8) -> Scan {
    if s.hex_left > 0 && hex_digit(b) is Some {
        let value = (s.hex_value * 16 + hex_digit(b)->0) % 0x10000;
        Scan {
            hex_left: s.hex_left - 1,
            hex_value: value,
            string_len: if s.hex_left == 1 {
                capped(s.string_len + escape_len(value))
            } else {
                s.string_len
            },
            ..s
        }
    } else if s.escaped {
        if b == LOWER_U {
            Scan { escaped: false, hex_left: 4, hex_value: 0, ..s }
        } else {
            Scan { escaped: false, hex_left: 0, string_len: capped(s.string_len + 1), ..s }
        }
    } else if b == BACKSLASH {
        Scan { escaped: true, hex_left: 0, ..s }
    } else if b == QUOTE {
        Scan { in_string: false, hex_left: 0, ..s }
    } else {
        Scan { hex_left: 0, string_len: capped(s.string_len + 1), ..s }
    }
}

/// The pass after one more byte. The text is refused where an object ends
/// behind a comma, where more than `MAX_DEPTH` arrays and objects are open,
/// where the keys of the open objects have more than `MAX_KEYS` bytes
/// together, where an array has more than `MAX_COMMAS` commas, and where an
/// exponent is above what a machine word holds.
pub open spec fn step(s: Scan, b: u8) -> Scan {
    if s.refused {
        s
    } else if s.in_string {
        step_inside(s, b)
    } else {
        Scan {
            in_string: b == QUOTE,
            escaped: false,
            hex_left: 0,
            hex_value: 0,
            string_len: if b == QUOTE {
                0
            } else {
                s.string_len
            },
            open: open_after(s, b),
            after_comma: b == COMMA || (s.after_comma && is_space(b)),
            exponent: exponent_after(s.exponent, b),
            refused: refuses(s, b),
        }
    }
}

/// The pass before the first byte.
pub open spec fn start() -> Scan {
    Scan {
        in_string: false,
        escaped: false,
        hex_left: 0,
        hex_value: 0,
        string_len: 0,
        open: Seq::empty(),
        after_comma: false,
        exponent: None,
        refused: false,
    }
}

/// The pass over a whole text.
pub open spec fn scan(bytes: Seq<u8>) -> Scan
    decreases bytes.len(),
{
    if bytes.len() == 0 {
        start()
    } else {
        step(scan(bytes.drop_last()), bytes.last())
    }
}

/// The text is one that the JSON reader is given: the pass over it refuses
/// nothing.
pub open spec fn within_reader_limits(bytes: Seq<u8>) -> bool {
    !scan(bytes).refused
}

/// A text that is refused after some of its bytes is refused as a whole.
pub proof fn lemma_refused_stays(bytes: Seq<u8>, n: int)
    requires
        0 <= n <= bytes.len(),
        scan(bytes.take(n)).refused,
    ensures
        scan(bytes).refused,
    decreases bytes.len() - n,
{
    if n < bytes.len() {
        assert(bytes.take(n + 1).drop_last() =~= bytes.take(n));
        lemma_refused_stays(bytes, n + 1);
    } else {
        assert(bytes.take(n) =~= bytes);
    }
}

/// The keys of open objects have no fewer bytes together than the key of
/// the innermost.
pub proof fn lemma_keys_len(open: Seq<Frame>)
    ensures
        keys_len(open) >= 0,
        open.len() > 0 ==> keys_len(open) == keys_len(open.drop_last()) + open.last().key,
    decreases open.len(),
{
    if open.len() > 0 {
        lemma_keys_len(open.drop_last());
    }
}

/// Whether the text is one that the JSON reader is given.
pub fn reader_takes(bytes: &[u8]) -> (r: bool)
    ensures
        r == within_reader_limits(bytes@),
{
    let mut in_string = false;
    let mut escaped = false;
    let mut hex_left: u8 = 0;
    let mut hex_value: u32 = 0;
    let mut string_len: usize = 0;
    let mut open: Vec<Frame> = Vec::new();
    let mut keys: usize = 0;
    let mut after_comma = false;
    let mut exponent: Option<usize> = None;
    let mut i: usize = 0;
    while i < bytes.len()
        invariant
            i <= bytes.len(),
            !scan(bytes@.take(i as int)).refused,
            in_string == scan(bytes@.take(i as int)).in_string,
            escaped == scan(bytes@.take(i as int)).escaped,
            hex_left == scan(bytes@.take(i as int)).hex_left,
            hex_value == scan(bytes@.take(i as int)).hex_value,
            string_len == scan(bytes@.take(i as int)).string_len,
            open@ == scan(bytes@.take(i as int)).open,
            after_comma == scan(bytes@.take(i as int)).after_comma,
            match exponent {
                Some(n) => scan(bytes@.take(i as int)).exponent == Some(n as int),
                None => scan(bytes@.take(i as int)).exponent is None,
            },
            hex_left <= 4,
            hex_value < 0x10000,
            string_len <= MAX_KEYS + 1,
            open.len() <= MAX_DEPTH,
            keys == keys_len(open@),
            keys <= MAX_KEYS,
        decreases bytes.len() - i,
    {
        let b = bytes[i];
        proof {
            assert(bytes@.take(i + 1).drop_last() =~= bytes@.take(i as int));
            lemma_keys_len(open@);
            if open@.len() > 0 {
                lemma_keys_len(open@.drop_last());
            }
        }
        if in_string {
            let hex: Option<u32> = if 0x30 <= b && b <= 0x39 {
                Some((b - 0x30) as u32)
            } else if 0x61 <= b && b <= 0x66 {
                Some((b - 0x61 + 10) as u32)
            } else if 0x41 <= b && b <= 0x46 {
                Some((b - 0x41 + 10) as u32)
            } else {
                None
            };
            if hex_left > 0 && hex.is_some() {
                hex_value = (hex_value * 16 + hex.unwrap()) % 0x10000;
                if hex_left == 1 {
                    let added: usize = if 0xd800 <= hex_value && hex_value <= 0xdbff {
                        4
                    } else if 0xdc00 <= hex_value && hex_value <= 0xdfff {
                        0
                    } else if hex_value < 0x80 {
                        1
                    } else if hex_value < 0x800 {
                        2
                    } else {
                        3
                    };
                    string_len = if string_len + added > MAX_KEYS {
                        MAX_KEYS + 1
                    } else {
                        string_len + added
                    };
                }
                hex_left -= 1;
            } else if escaped {
                escaped = false;
                if b == LOWER_U {
                    hex_left = 4;
                    hex_value = 0;
                } else {
                    hex_left = 0;
                    string_len = if string_len + 1 > MAX_KEYS {
                        MAX_KEYS + 1
                    } else {
                        string_len + 1
                    };
                }
            } else if b == BACKSLASH {
                escaped = true;
                hex_left = 0;
            } else if b == QUOTE {
                in_string = false;
                hex_left = 0;
            } else {
                hex_left = 0;
                string_len = if string_len + 1 > MAX_KEYS {
                    MAX_KEYS + 1
                } else {
                    string_len + 1
                };
            }
        } else {
            let mut beyond = false;
            if b == LOWER_E || b == UPPER_E {
                exponent = Some(0);
            } else if 0x30 <= b && b <= 0x39 {
                let d = (b - 0x30) as usize;
                exponent = match exponent {
                    Some(n) => if n > (usize::MAX - d) / 10 {
                        beyond = true;
                        None
                    } else {
                        Some(n * 10 + d)
                    },
                    None => None,
                };
            } else if (b == PLUS || b == MINUS) && exponent == Some(0) {
                exponent = Some(0);
            } else {
                exponent = None;
            }
            if beyond || (after_comma && b == OBJECT_CLOSE) {
                proof {
                    lemma_refused_stays(bytes@, i + 1);
                }
                return false;
            }
            if b == ARRAY_OPEN || b == OBJECT_OPEN {
                if open.len() >= MAX_DEPTH {
                    proof {
                        lemma_refused_stays(bytes@, i + 1);
                    }
                    return false;
                }
                let frame = Frame { array: b == ARRAY_OPEN, key: 0, commas: 0 };
                proof {
                    assert(open@.push(frame).drop_last() =~= open@);
                }
                open.push(frame);
            } else if open.len() > 0 {
                let last = open.len() - 1;
                let top = open[last];
                if b == ARRAY_CLOSE || b == OBJECT_CLOSE {
                    keys = keys - top.key;
                    open.pop();
                } else if b == COLON && !top.array {
                    if keys - top.key + string_len > MAX_KEYS {
                        proof {
                            lemma_refused_stays(bytes@, i + 1);
                        }
                        return false;
                    }
                    let frame = Frame { array: top.array, key: string_len, commas: top.commas };
                    proof {
                        assert(open@.update(last as int, frame) =~= open@.drop_last().push(frame));
                        assert(open@.drop_last().push(frame).drop_last() =~= open@.drop_last());
                    }
                    keys = keys - top.key + string_len;
                    open.set(last, frame);
                } else if b == COMMA && top.array {
                    if top.commas >= MAX_COMMAS {
                        proof {
                            lemma_refused_stays(bytes@, i + 1);
                        }
                        return false;
                    }
                    let frame = Frame { array: top.array, key: top.key, commas: top.commas + 1 };
                    proof {
                        assert(open@.update(last as int, frame) =~= open@.drop_last().push(frame));
                        assert(open@.drop_last().push(frame).drop_last() =~= open@.drop_last());
                    }
                    open.set(last, frame);
                }
            }
            in_string = b == QUOTE;
            if b == QUOTE {
                string_len = 0;
            }
            hex_value = 0;
            after_comma = b == COMMA || (after_comma && (b == SPACE || b == TAB || b == LINE_FEED
                || b == CARRIAGE_RETURN));
        }
        i += 1;
    }
    proof {
        assert(bytes@.take(bytes.len() as int) =~= bytes@);
    }
    true
}

} // verus!
