//! A hex dump of a byte buffer: one row per sixteen bytes, each row holding
//! the offset, the bytes in hexadecimal in groups of four, and the bytes
//! again as printable ASCII. The text is produced as ASCII bytes.

use vstd::prelude::*;

verus! {

/// The upper-case hexadecimal digit of `d`, for `d < 16`.
pub open spec fn hex_digit(d: nat) -> u8 {
    if d < 10 {
        (48 + d) as u8
    } else {
        (55 + d) as u8
    }
}

/// `n` in upper-case hexadecimal, padded with zeros to at least `width` digits.
pub open spec fn hex_text(n: nat, width: nat) -> Seq<u8>
    decreases n, width,
{
    if n < 16 && width <= 1 {
        seq![hex_digit(n)]
    } else {
        hex_text(n / 16, if width > 0 {
            (width - 1) as nat
        } else {
            0
        }) + seq![hex_digit(n % 16)]
    }
}

/// Column `j` of a row for `chunk`: the byte and a space, or three spaces
/// past the end of the chunk, with one more space after every fourth column.
pub open spec fn hex_cell(chunk: Seq<u8>, j: int) -> Seq<u8> {
    (if j < chunk.len() {
        hex_text(chunk[j] as nat, 2) + seq![32u8]
    } else {
        seq![32u8, 32u8, 32u8]
    }) + (if j % 4 == 3 {
        seq![32u8]
    } else {
        Seq::empty()
    })
}

/// The first `k` columns of a row for `chunk`.
pub open spec fn hex_cells(chunk: Seq<u8>, k: int) -> Seq<u8>
    decreases k,
{
    if k <= 0 {
        Seq::empty()
    } else {
        hex_cells(chunk, k - 1) + hex_cell(chunk, k - 1)
    }
}

/// How a byte shows in the ASCII column: itself if printable, else a dot.
pub open spec fn shown(b: u8) -> u8 {
    if 0x20 <= b < 0x7f {
        b
    } else {
        0x2e
    }
}

/// One row of the dump: offset, sixteen hex columns, the ASCII column and a
/// line break.
pub open spec fn hex_row(offset: nat, chunk: Seq<u8>) -> Seq<u8> {
    hex_text(offset, 8) + seq![32u8, 32u8] + hex_cells(chunk, 16) + seq![32u8] + chunk.map_values(
        |b: u8| shown(b),
    ) + seq![10u8]
}

/// The `i`-th group of sixteen bytes of `b` (shorter at the end).
pub open spec fn chunk_of(b: Seq<u8>, i: int) -> Seq<u8> {
    b.subrange(16 * i, if 16 * i + 16 <= b.len() {
        16 * i + 16
    } else {
        b.len() as int
    })
}

/// The first `k` rows of the dump of `b`.
pub open spec fn hex_rows(b: Seq<u8>, k: int) -> Seq<u8>
    decreases k,
{
    if k <= 0 {
        Seq::empty()
    } else {
        hex_rows(b, k - 1) + hex_row((16 * (k - 1)) as nat, chunk_of(b, k - 1))
    }
}

/// The number of rows the dump of `len` bytes takes.
pub open spec fn row_count(len: nat) -> int {
    ((len + 15) / 16) as int
}

fn hex_digit_of(d: usize) -> (r: u8)
    requires
        d < 16,
    ensures
        r == hex_digit(d as nat),
{
    if d < 10 {
        48 + d as u8
    } else {
        55 + d as u8
    }
}

/// Appends `n` in upper-case hexadecimal, zero-padded to `width` digits.
fn push_hex(out: &mut Vec<u8>, n: usize, width: usize)
    ensures
        final(out)@ == old(out)@ + hex_text(n as nat, width as nat),
    decreases n, width,
{
    if n < 16 && width <= 1 {
        out.push(hex_digit_of(n));
    } else {
        let rest = if width > 0 {
            width - 1
        } else {
            0
        };
        push_hex(out, n / 16, rest);
        out.push(hex_digit_of(n % 16));
        assert(final(out)@ =~= old(out)@ + hex_text(n as nat, width as nat));
    }
}

/// Appends the row for `chunk`, which starts at `offset`.
fn push_row(out: &mut Vec<u8>, offset: usize, chunk: &[u8])
    requires
        chunk@.len() <= 16,
    ensures
        final(out)@ == old(out)@ + hex_row(offset as nat, chunk@),
{
    push_hex(out, offset, 8);
    out.push(32);
    out.push(32);
    let ghost lead = out@;
    let mut j: usize = 0;
    while j < 16
        invariant
            j <= 16,
            chunk@.len() <= 16,
            out@ == lead + hex_cells(chunk@, j as int),
        decreases 16 - j,
    {
        let ghost before = out@;
        if j < chunk.len() {
            push_hex(out, chunk[j] as usize, 2);
            out.push(32);
        } else {
            out.push(32);
            out.push(32);
            out.push(32);
        }
        if j % 4 == 3 {
            out.push(32);
        }
        assert(out@ =~= before + hex_cell(chunk@, j as int));
        assert(out@ =~= lead + hex_cells(chunk@, j + 1));
        j += 1;
    }
    out.push(32);
    let ghost middle = out@;
    let mut k: usize = 0;
    while k < chunk.len()
        invariant
            k <= chunk@.len(),
            out@ == middle + chunk@.subrange(0, k as int).map_values(|b: u8| shown(b)),
        decreases chunk.len() - k,
    {
        let b = chunk[k];
        if 0x20 <= b && b < 0x7f {
            out.push(b);
        } else {
            out.push(0x2e);
        }
        assert(chunk@.subrange(0, k + 1).map_values(|b: u8| shown(b)) =~= chunk@.subrange(
            0,
            k as int,
        ).map_values(|b: u8| shown(b)).push(shown(b)));
        k += 1;
    }
    out.push(10);
    assert(chunk@.subrange(0, chunk@.len() as int) =~= chunk@);
    assert(final(out)@ =~= old(out)@ + hex_row(offset as nat, chunk@));
}

/// The rows of a hex dump of `bytes`, as ASCII text.
pub fn hex_dump(bytes: &[u8]) -> (r: Vec<u8>)
    ensures
        r@ == hex_rows(bytes@, row_count(bytes@.len())),
{
    let len = bytes.len();
    let mut out: Vec<u8> = Vec::new();
    let mut start: usize = 0;
    let ghost mut i: int = 0;
    while start < len
        invariant
            len == bytes@.len(),
            start <= len,
            start < len ==> start == 16 * i,
            0 <= i <= row_count(len as nat),
            start < len ==> i < row_count(len as nat),
            start >= len ==> i == row_count(len as nat),
            out@ == hex_rows(bytes@, i),
        decreases len - start,
    {
        let end = if len - start >= 16 {
            start + 16
        } else {
            len
        };
        let chunk = vstd::slice::slice_subrange(bytes, start, end);
        assert(chunk@ == chunk_of(bytes@, i));
        push_row(&mut out, start, chunk);
        proof {
            i = i + 1;
        }
        start = end;
    }
    out
}

} // verus!
