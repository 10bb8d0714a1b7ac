//! The outline of an encoded term: which bytes belong to it, and whether
//! every tag in it is one that this library handles.
//!
//! A frame is checked here, byte by byte, before it is handed to the term
//! decoder, so that the decoder only ever sees input whose tags it supports,
//! whose lengths lie inside the buffer and whose nesting is bounded.

use vstd::prelude::*;

verus! {

/// The version byte that opens every encoded term.
pub const VERSION: u8 = 131;

pub const NEW_FLOAT_EXT: u8 = 70;

pub const SMALL_INTEGER_EXT: u8 = 97;

pub const INTEGER_EXT: u8 = 98;

pub const FLOAT_EXT: u8 = 99;

pub const ATOM_EXT: u8 = 100;

pub const SMALL_TUPLE_EXT: u8 = 104;

pub const LARGE_TUPLE_EXT: u8 = 105;

pub const NIL_EXT: u8 = 106;

pub const STRING_EXT: u8 = 107;

pub const LIST_EXT: u8 = 108;

pub const BINARY_EXT: u8 = 109;

pub const SMALL_BIG_EXT: u8 = 110;

pub const LARGE_BIG_EXT: u8 = 111;

pub const SMALL_ATOM_EXT: u8 = 115;

pub const MAP_EXT: u8 = 116;

pub const ATOM_UTF8_EXT: u8 = 118;

pub const SMALL_ATOM_UTF8_EXT: u8 = 119;

/// How many containers may stand inside one another in a frame. The decoder
/// and every function that walks a term call themselves once for each level,
/// so the depth has to stay inside what the stack of a thread holds. On the
/// two mebibytes that a thread gets by default, a frame nested twice as deep
/// as this is decoded, read, printed and encoded again, and one nested four
/// times as deep overflows the stack.
pub const MAX_NESTING: usize = 256;

/// Why a buffer is not decoded into a term.
#[derive(Debug, Clone, Copy, PartialEq, Eq)]
pub enum DecodeError {
    /// The buffer ends before the term does.
    Truncated,
    /// The first byte is not the format version.
    UnsupportedVersion(u8),
    /// A term starts with a tag that this library does not handle.
    UnsupportedTag(u8),
    /// Containers are nested deeper than `MAX_NESTING`.
    TooDeep,
    /// The outline is sound but the decoder rejected the contents.
    Malformed,
    /// The decoder produced a kind of term that this library does not model.
    UnsupportedTerm,
}

/// The kinds of tag, by how the bytes after the tag are laid out.
pub enum Layout {
    /// A fixed number of bytes.
    Fixed(int),
    /// A big-endian length of `width` bytes, `extra` bytes, then as many
    /// bytes as the length says.
    Sized { width: int, extra: int },
    /// A big-endian count of `width` bytes, then terms: `per` for each
    /// counted item and `more` after them.
    Nested { width: int, per: int, more: int },
    /// Not handled.
    Unsupported,
}

pub open spec fn layout_of(tag: u8) -> Layout {
    if tag == SMALL_INTEGER_EXT {
        Layout::Fixed(1)
    } else if tag == INTEGER_EXT {
        Layout::Fixed(4)
    } else if tag == NEW_FLOAT_EXT {
        Layout::Fixed(8)
    } else if tag == FLOAT_EXT {
        Layout::Fixed(31)
    } else if tag == NIL_EXT {
        Layout::Fixed(0)
    } else if tag == SMALL_ATOM_EXT || tag == SMALL_ATOM_UTF8_EXT {
        Layout::Sized { width: 1, extra: 0 }
    } else if tag == ATOM_EXT || tag == ATOM_UTF8_EXT || tag == STRING_EXT {
        Layout::Sized { width: 2, extra: 0 }
    } else if tag == BINARY_EXT {
        Layout::Sized { width: 4, extra: 0 }
    } else if tag == SMALL_BIG_EXT {
        Layout::Sized { width: 1, extra: 1 }
    } else if tag == LARGE_BIG_EXT {
        Layout::Sized { width: 4, extra: 1 }
    } else if tag == SMALL_TUPLE_EXT {
        Layout::Nested { width: 1, per: 1, more: 0 }
    } else if tag == LARGE_TUPLE_EXT {
        Layout::Nested { width: 4, per: 1, more: 0 }
    } else if tag == LIST_EXT {
        Layout::Nested { width: 4, per: 1, more: 1 }
    } else if tag == MAP_EXT {
        Layout::Nested { width: 4, per: 2, more: 0 }
    } else {
        Layout::Unsupported
    }
}

/// The big-endian number in the `width` bytes from `pos` on (`width` is 1, 2 or 4).
pub open spec fn be_field(b: Seq<u8>, pos: int, width: int) -> int {
    if width == 1 {
        b[pos] as int
    } else if width == 2 {
        b[pos] as int * 256 + b[pos + 1] as int
    } else {
        ((b[pos] as int * 256 + b[pos + 1] as int) * 256 + b[pos + 2] as int) * 256 + b[pos
            + 3] as int
    }
}

/// Where a run of `n` bytes from `pos` ends, if the buffer holds it.
pub open spec fn span_end(b: Seq<u8>, pos: int, n: int) -> Result<int, DecodeError> {
    if pos + n <= b.len() {
        Ok(pos + n)
    } else {
        Err(DecodeError::Truncated)
    }
}

/// Where the term that starts at `pos` ends, with `depth` levels of nesting
/// still allowed inside it; or why it cannot be taken.
pub open spec fn term_end(b: Seq<u8>, pos: int, depth: nat) -> Result<int, DecodeError>
    decreases depth, 0nat,
{
    if pos < 0 || pos >= b.len() {
        Err(DecodeError::Truncated)
    } else {
        match layout_of(b[pos]) {
            Layout::Fixed(n) => span_end(b, pos + 1, n),
            Layout::Sized { width, extra } => {
                if pos + 1 + width > b.len() {
                    Err(DecodeError::Truncated)
                } else {
                    span_end(b, pos + 1 + width, extra + be_field(b, pos + 1, width))
                }
            },
            Layout::Nested { width, per, more } => {
                if pos + 1 + width > b.len() {
                    Err(DecodeError::Truncated)
                } else if depth == 0 {
                    Err(DecodeError::TooDeep)
                } else {
                    items_end(
                        b,
                        pos + 1 + width,
                        (per * be_field(b, pos + 1, width) + more) as nat,
                        (depth - 1) as nat,
                    )
                }
            },
            Layout::Unsupported => Err(DecodeError::UnsupportedTag(b[pos])),
        }
    }
}

/// Where `count` terms in a row end, the first starting at `pos`.
pub open spec fn items_end(b: Seq<u8>, pos: int, count: nat, depth: nat) -> Result<
    int,
    DecodeError,
>
    decreases depth, count + 1,
{
    if count == 0 {
        Ok(pos)
    } else {
        match term_end(b, pos, depth) {
            Ok(next) => items_end(b, next, (count - 1) as nat, depth),
            Err(e) => Err(e),
        }
    }
}

/// Where the term of a whole frame ends: after the version byte and one term.
pub open spec fn frame_end(b: Seq<u8>) -> Result<int, DecodeError> {
    if b.len() == 0 {
        Err(DecodeError::Truncated)
    } else if b[0] != VERSION {
        Err(DecodeError::UnsupportedVersion(b[0]))
    } else {
        term_end(b, 1, MAX_NESTING as nat)
    }
}

/// Whether an exec position stands for a spec result.
pub open spec fn same_end(r: Result<usize, DecodeError>, s: Result<int, DecodeError>) -> bool {
    match r {
        Ok(p) => s == Ok::<int, DecodeError>(p as int),
        Err(e) => s == Err::<int, DecodeError>(e),
    }
}

fn read_field(b: &[u8], pos: usize, width: u8) -> (n: u64)
    requires
        width == 1 || width == 2 || width == 4,
        pos + width <= b.len(),
    ensures
        n == be_field(b@, pos as int, width as int),
        n <= 0xffff_ffff,
{
    if width == 1 {
        b[pos] as u64
    } else if width == 2 {
        (b[pos] as u64) * 256 + (b[pos + 1] as u64)
    } else {
        (((b[pos] as u64) * 256 + (b[pos + 1] as u64)) * 256 + (b[pos + 2] as u64)) * 256 + (b[pos
            + 3] as u64)
    }
}

fn scan_span(b: &[u8], pos: usize, n: u64) -> (r: Result<usize, DecodeError>)
    requires
        pos <= b.len(),
    ensures
        same_end(r, span_end(b@, pos as int, n as int)),
        r matches Ok(p) ==> pos <= p <= b.len(),
{
    let room: usize = b.len() - pos;
    if n <= room as u64 {
        Ok(pos + n as usize)
    } else {
        Err(DecodeError::Truncated)
    }
}

/// Finds where the term at `pos` ends.
pub fn scan_term(b: &[u8], pos: usize, depth: usize) -> (r: Result<usize, DecodeError>)
    requires
        pos <= b.len(),
    ensures
        same_end(r, term_end(b@, pos as int, depth as nat)),
        r matches Ok(p) ==> pos < p <= b.len(),
    decreases depth, 0nat,
{
    if pos >= b.len() {
        return Err(DecodeError::Truncated);
    }
    let tag: u8 = b[pos];
    let body: usize = pos + 1;
    if tag == SMALL_INTEGER_EXT {
        scan_span(b, body, 1)
    } else if tag == INTEGER_EXT {
        scan_span(b, body, 4)
    } else if tag == NEW_FLOAT_EXT {
        scan_span(b, body, 8)
    } else if tag == FLOAT_EXT {
        scan_span(b, body, 31)
    } else if tag == NIL_EXT {
        scan_span(b, body, 0)
    } else if tag == SMALL_ATOM_EXT || tag == SMALL_ATOM_UTF8_EXT {
        scan_sized(b, body, 1, 0)
    } else if tag == ATOM_EXT || tag == ATOM_UTF8_EXT || tag == STRING_EXT {
        scan_sized(b, body, 2, 0)
    } else if tag == BINARY_EXT {
        scan_sized(b, body, 4, 0)
    } else if tag == SMALL_BIG_EXT {
        scan_sized(b, body, 1, 1)
    } else if tag == LARGE_BIG_EXT {
        scan_sized(b, body, 4, 1)
    } else if tag == SMALL_TUPLE_EXT {
        scan_nested(b, body, 1, 1, 0, depth)
    } else if tag == LARGE_TUPLE_EXT {
        scan_nested(b, body, 4, 1, 0, depth)
    } else if tag == LIST_EXT {
        scan_nested(b, body, 4, 1, 1, depth)
    } else if tag == MAP_EXT {
        scan_nested(b, body, 4, 2, 0, depth)
    } else {
        Err(DecodeError::UnsupportedTag(tag))
    }
}

fn scan_sized(b: &[u8], body: usize, width: u8, extra: u8) -> (r: Result<usize, DecodeError>)
    requires
        body <= b.len(),
        width == 1 || width == 2 || width == 4,
        extra <= 1,
    ensures
        same_end(
            r,
            if body + width > b.len() {
                Err(DecodeError::Truncated)
            } else {
                span_end(
                    b@,
                    body + width,
                    extra + be_field(b@, body as int, width as int),
                )
            },
        ),
        r matches Ok(p) ==> body <= p <= b.len(),
{
    if width as usize > b.len() - body {
        return Err(DecodeError::Truncated);
    }
    let n: u64 = read_field(b, body, width);
    scan_span(b, body + width as usize, extra as u64 + n)
}

fn scan_nested(b: &[u8], body: usize, width: u8, per: u8, more: u8, depth: usize) -> (r: Result<
    usize,
    DecodeError,
>)
    requires
        body <= b.len(),
        width == 1 || width == 4,
        1 <= per <= 2,
        more <= 1,
    ensures
        same_end(
            r,
            if body + width > b.len() {
                Err(DecodeError::Truncated)
            } else if depth == 0 {
                Err(DecodeError::TooDeep)
            } else {
                items_end(
                    b@,
                    body + width,
                    (per * be_field(b@, body as int, width as int) + more) as nat,
                    (depth - 1) as nat,
                )
            },
        ),
        r matches Ok(p) ==> body <= p <= b.len(),
    decreases depth, 0nat, 0nat,
{
    if width as usize > b.len() - body {
        return Err(DecodeError::Truncated);
    }
    if depth == 0 {
        return Err(DecodeError::TooDeep);
    }
    let n: u64 = read_field(b, body, width);
    let counted: u64 = if per == 1 {
        n
    } else {
        n + n
    };
    assert(counted == per * n) by (nonlinear_arith)
        requires
            counted == if per == 1 {
                n as int
            } else {
                n + n
            },
            1 <= per <= 2,
    ;
    let count: u64 = counted + (more as u64);
    scan_items(b, body + width as usize, count, depth - 1)
}

/// Finds where `count` terms in a row end.
pub fn scan_items(b: &[u8], pos: usize, count: u64, depth: usize) -> (r: Result<
    usize,
    DecodeError,
>)
    requires
        pos <= b.len(),
    ensures
        same_end(r, items_end(b@, pos as int, count as nat, depth as nat)),
        r matches Ok(p) ==> pos <= p <= b.len(),
    decreases depth, 1nat,
{
    let mut cur: usize = pos;
    let mut left: u64 = count;
    while left > 0
        invariant
            pos <= cur <= b.len(),
            items_end(b@, pos as int, count as nat, depth as nat) == items_end(
                b@,
                cur as int,
                left as nat,
                depth as nat,
            ),
        decreases left,
    {
        match scan_term(b, cur, depth) {
            Ok(next) => {
                cur = next;
                left = left - 1;
            },
            Err(e) => {
                return Err(e);
            },
        }
    }
    Ok(cur)
}

/// Checks the outline of a frame and says where its term ends.
pub fn check_frame(bytes: &[u8]) -> (r: Result<usize, DecodeError>)
    ensures
        same_end(r, frame_end(bytes@)),
        r matches Ok(p) ==> 1 < p <= bytes.len(),
{
    if bytes.len() == 0 {
        return Err(DecodeError::Truncated);
    }
    let version: u8 = bytes[0];
    if version != VERSION {
        return Err(DecodeError::UnsupportedVersion(version));
    }
    scan_term(bytes, 1, MAX_NESTING)
}

} // verus!
