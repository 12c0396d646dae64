use vstd::prelude::*;

use crate::num::{
    count_byte, hex_digit, hex_digits, hex_fixed, lemma_count_byte_absent,
    lemma_count_byte_concat, lemma_hex_digits_len, push_all, push_spaces, spaces,
};

verus! {

/// A byte is printable when it lies in the ASCII range and is not an ASCII
/// control character (`0x00..0x20` and `0x7f`).
pub open spec fn is_printable_spec(c: u8) -> bool {
    0x20 <= c && c <= 0x7e
}

/// The rendering of one input byte in the text format: printable bytes and
/// the newline pass through, a carriage return becomes the two bytes `\` `r`,
/// and everything else becomes a single `.`.
pub open spec fn text_byte(c: u8) -> Seq<u8> {
    if is_printable_spec(c) || c == 10 {
        seq![c]
    } else if c == 13 {
        seq![92u8, 114u8]
    } else {
        seq![46u8]
    }
}

/// The text rendering of a byte run, without the trailing newline.
pub open spec fn text_body(b: Seq<u8>) -> Seq<u8>
    decreases b.len(),
{
    if b.len() == 0 {
        Seq::empty()
    } else {
        text_body(b.drop_last()) + text_byte(b.last())
    }
}

/// The text format: each byte rendered in order, then one trailing newline.
pub open spec fn text_encoding(b: Seq<u8>) -> Seq<u8> {
    text_body(b) + seq![10u8]
}

/// The raw format: the run itself, then one trailing newline.
pub open spec fn raw_encoding(b: Seq<u8>) -> Seq<u8> {
    b + seq![10u8]
}

/// The ASCII column of a hex-dump row: printable bytes pass through,
/// everything else becomes `.`.
pub open spec fn ascii_render(row: Seq<u8>) -> Seq<u8> {
    Seq::new(row.len(), |i: int| if is_printable_spec(row[i]) { row[i] } else { 46u8 })
}

/// The hex columns of the first `j` bytes of a row: two lowercase hex digits
/// and a space for each byte, with one extra space after the eighth byte.
pub open spec fn hex_cols_upto(row: Seq<u8>, j: int) -> Seq<u8>
    decreases j,
{
    if j <= 0 {
        Seq::empty()
    } else {
        hex_cols_upto(row, j - 1) + hex_digits(row[j - 1] as int, 2) + seq![32u8] + if j - 1 == 7 {
            seq![32u8]
        } else {
            Seq::<u8>::empty()
        }
    }
}

pub open spec fn hex_cols(row: Seq<u8>) -> Seq<u8> {
    hex_cols_upto(row, row.len() as int)
}

/// Alignment padding after the hex columns of a row of `len` bytes: one space
/// when the row never reached the half-row gap, and three spaces for every
/// missing byte column.
pub open spec fn hex_pad(len: int) -> Seq<u8> {
    (if len < 8 {
        spaces(1)
    } else {
        Seq::<u8>::empty()
    }) + spaces((3 * (16 - len)) as nat)
}

/// One hex-dump row: the row's starting offset as exactly eight lowercase hex
/// digits, three spaces, the hex columns, alignment padding, three spaces, the
/// ASCII column, and a newline.
pub open spec fn hex_row(off: int, row: Seq<u8>) -> Seq<u8> {
    hex_digits(off, 8) + spaces(3) + hex_cols(row) + hex_pad(row.len() as int) + spaces(3)
        + ascii_render(row) + seq![10u8]
}

/// The bytes shown by row `i` of the dump of `b`: the `i`-th run of sixteen.
pub open spec fn row_bytes(b: Seq<u8>, i: int) -> Seq<u8> {
    b.subrange(
        16 * i,
        if 16 * i + 16 <= b.len() {
            16 * i + 16
        } else {
            b.len() as int
        },
    )
}

/// How many rows the dump of `len` bytes has: `len / 16`, rounded up.
pub open spec fn row_count(len: int) -> int {
    (len + 15) / 16
}

/// The first `i` rows of the hex dump of `b`.
pub open spec fn hex_rows_upto(b: Seq<u8>, i: int) -> Seq<u8>
    decreases i,
{
    if i <= 0 {
        Seq::empty()
    } else {
        hex_rows_upto(b, i - 1) + hex_row(16 * (i - 1), row_bytes(b, i - 1))
    }
}

/// The hex format: one row per run of sixteen input bytes.
pub open spec fn hex_encoding(b: Seq<u8>) -> Seq<u8> {
    hex_rows_upto(b, row_count(b.len() as int))
}

/// Which of the three renderings a session writes for each flushed chunk.
#[derive(Clone, Copy, PartialEq, Eq, Structural)]
pub enum ChunkFormatter {
    Text,
    Hex,
    Raw,
}

impl ChunkFormatter {
    /// The encoding this formatter produces for a byte run.
    pub open spec fn encoding_spec(self, b: Seq<u8>) -> Seq<u8> {
        match self {
            ChunkFormatter::Text => text_encoding(b),
            ChunkFormatter::Hex => hex_encoding(b),
            ChunkFormatter::Raw => raw_encoding(b),
        }
    }

    /// The formatter a session runs with: raw when asked, else hex when
    /// asked, else text.
    pub fn select(hex: bool, raw: bool) -> (r: ChunkFormatter)
        ensures
            r == (if raw {
                ChunkFormatter::Raw
            } else if hex {
                ChunkFormatter::Hex
            } else {
                ChunkFormatter::Text
            }),
    {
        if raw {
            ChunkFormatter::Raw
        } else if hex {
            ChunkFormatter::Hex
        } else {
            ChunkFormatter::Text
        }
    }

    /// A byte is printable when it is ASCII and not an ASCII control byte.
    pub fn is_printable(c: u8) -> (r: bool)
        ensures
            r == is_printable_spec(c),
    {
        0x20 <= c && c <= 0x7e
    }

    /// Render a byte run in the format this session was configured with.
    pub fn format_chunk(&self, chunk: &[u8]) -> (r: Vec<u8>)
        ensures
            r@ == self.encoding_spec(chunk@),
    {
        match self {
            ChunkFormatter::Text => Self::format_text(chunk),
            ChunkFormatter::Hex => Self::format_hex(chunk),
            ChunkFormatter::Raw => Self::format_raw(chunk),
        }
    }

    /// Text rendering: printable bytes and newlines pass through, a carriage
    /// return becomes `\r`, anything else becomes `.`, and one newline is
    /// appended after the whole run.
    pub fn format_text(chunk: &[u8]) -> (r: Vec<u8>)
        ensures
            r@ == text_encoding(chunk@),
    {
        let mut res: Vec<u8> = Vec::new();
        let n = chunk.len();
        let mut i: usize = 0;
        while i < n
            invariant
                i <= n,
                n == chunk@.len(),
                res@ == text_body(chunk@.take(i as int)),
            decreases n - i,
        {
            let c = chunk[i];
            if Self::is_printable(c) || c == 10 {
                res.push(c);
            } else if c == 13 {
                res.push(92);
                res.push(114);
            } else {
                res.push(46);
            }
            proof {
                let pre = chunk@.take(i as int);
                assert(chunk@.take(i + 1).drop_last() =~= pre);
                assert(chunk@.take(i + 1).last() == chunk@[i as int]);
                assert(res@ =~= text_body(pre) + text_byte(chunk@[i as int]));
            }
            i += 1;
        }
        res.push(10);
        proof {
            assert(chunk@.take(n as int) =~= chunk@);
            assert(res@ =~= text_encoding(chunk@));
        }
        res
    }

    /// Classic hex dump: rows of up to sixteen bytes, each with the row's
    /// offset within the chunk, the hex columns, and an ASCII column.
    #[verifier::rlimit(100)]
    pub fn format_hex(chunk: &[u8]) -> (r: Vec<u8>)
        ensures
            r@ == hex_encoding(chunk@),
    {
        let mut res: Vec<u8> = Vec::new();
        let n = chunk.len();
        let mut start: usize = 0;
        let ghost mut i: int = 0;
        while start < n
            invariant
                n == chunk@.len(),
                start <= n,
                0 <= i <= row_count(n as int),
                start == 16 * i || (start == n && i == row_count(n as int)),
                res@ == hex_rows_upto(chunk@, i),
            decreases n - start,
        {
            proof {
                assert(start == 16 * i) by {
                    if start == n && i == row_count(n as int) {
                        // the loop condition start < n rules this arm out
                        assert(false);
                    }
                }
            }
            let rowlen: usize = if n - start < 16 {
                n - start
            } else {
                16
            };
            let ghost row = row_bytes(chunk@, i);
            proof {
                assert(row.len() == rowlen);
                assert(forall|k: int| 0 <= k < rowlen ==> row[k] == chunk@[start + k]);
            }
            let off_digits = hex_fixed(start, 8);
            push_all(&mut res, off_digits.as_slice());
            push_spaces(&mut res, 3);
            let ghost base_cols = res@;
            let mut j: usize = 0;
            while j < rowlen
                invariant
                    j <= rowlen,
                    rowlen == row.len(),
                    n == chunk@.len(),
                    start + rowlen <= n,
                    forall|k: int| 0 <= k < rowlen ==> row[k] == chunk@[start + k],
                    res@ == base_cols + hex_cols_upto(row, j as int),
                decreases rowlen - j,
            {
                let byte_digits = hex_fixed(chunk[start + j] as usize, 2);
                push_all(&mut res, byte_digits.as_slice());
                push_spaces(&mut res, 1);
                if j == 7 {
                    push_spaces(&mut res, 1);
                }
                proof {
                    assert(spaces(1) =~= seq![32u8]);
                    assert(res@ =~= base_cols + hex_cols_upto(row, j + 1));
                }
                j += 1;
            }
            if rowlen < 8 {
                push_spaces(&mut res, 1);
            }
            if rowlen < 16 {
                push_spaces(&mut res, 3 * (16 - rowlen));
            }
            push_spaces(&mut res, 3);
            let ghost base_ascii = res@;
            proof {
                assert(spaces(0) =~= Seq::<u8>::empty());
                if rowlen < 8 {
                    assert(spaces(1) + spaces((3 * (16 - rowlen)) as nat) =~= hex_pad(
                        rowlen as int,
                    ));
                } else if rowlen < 16 {
                    assert(spaces((3 * (16 - rowlen)) as nat) =~= hex_pad(rowlen as int));
                } else {
                    assert(hex_pad(rowlen as int) =~= Seq::<u8>::empty());
                }
                assert(base_ascii =~= base_cols + hex_cols(row) + hex_pad(rowlen as int) + spaces(
                    3,
                ));
            }
            let mut k: usize = 0;
            while k < rowlen
                invariant
                    k <= rowlen,
                    rowlen == row.len(),
                    n == chunk@.len(),
                    start + rowlen <= n,
                    forall|m: int| 0 <= m < rowlen ==> row[m] == chunk@[start + m],
                    res@ == base_ascii + ascii_render(row).take(k as int),
                decreases rowlen - k,
            {
                let c = chunk[start + k];
                if Self::is_printable(c) {
                    res.push(c);
                } else {
                    res.push(46);
                }
                proof {
                    assert(ascii_render(row).take(k + 1) =~= ascii_render(row).take(
                        k as int,
                    ).push(ascii_render(row)[k as int]));
                }
                k += 1;
            }
            res.push(10);
            proof {
                assert(ascii_render(row).take(rowlen as int) =~= ascii_render(row));
                assert(res@ =~= hex_rows_upto(chunk@, i) + hex_row(16 * i, row));
                assert(res@ =~= hex_rows_upto(chunk@, i + 1));
            }
            if rowlen == 16 {
                start = start + 16;
                proof {
                    i = i + 1;
                    assert(16 * i <= n);
                    assert(i <= row_count(n as int)) by (nonlinear_arith)
                        requires
                            16 * i <= n,
                    ;
                }
            } else {
                proof {
                    assert(row_count(n as int) == i + 1) by (nonlinear_arith)
                        requires
                            n == 16 * i + rowlen,
                            0 < rowlen < 16,
                    ;
                    i = i + 1;
                }
                start = n;
            }
        }
        proof {
            if n == 0 {
                assert(res@ =~= hex_encoding(chunk@));
            } else {
                assert(i == row_count(n as int));
            }
        }
        res
    }

    /// Raw rendering: the run itself followed by exactly one newline.
    pub fn format_raw(chunk: &[u8]) -> (r: Vec<u8>)
        ensures
            r@ == raw_encoding(chunk@),
    {
        let mut res: Vec<u8> = Vec::new();
        push_all(&mut res, chunk);
        res.push(10);
        proof {
            assert(res@ =~= raw_encoding(chunk@));
        }
        res
    }
}

/// Law: the raw format is the input run with exactly one newline appended.
pub proof fn lemma_raw_shape(b: Seq<u8>)
    ensures
        raw_encoding(b) == b + seq![10u8],
        raw_encoding(b).len() == b.len() + 1,
{
}

/// Law: the text format's length is the input length plus one extra byte for
/// every carriage return plus the trailing newline.
pub proof fn lemma_text_len(b: Seq<u8>)
    ensures
        text_encoding(b).len() == b.len() + count_byte(b, 13) + 1,
{
    lemma_text_body_len(b);
}

proof fn lemma_text_body_len(b: Seq<u8>)
    ensures
        text_body(b).len() == b.len() + count_byte(b, 13),
    decreases b.len(),
{
    if b.len() > 0 {
        lemma_text_body_len(b.drop_last());
    }
}

/// Law: the text format is, byte run by byte run, the rendering of each input
/// byte in order — the byte itself, the two-byte carriage-return escape, or a
/// dot — followed by one newline.
pub proof fn lemma_text_structure(b: Seq<u8>)
    ensures
        text_encoding(b) == Seq::new(b.len(), |i: int| text_byte(b[i])).flatten() + seq![10u8],
{
    lemma_text_body_structure(b);
}

proof fn lemma_count_single(x: u8, c: u8)
    ensures
        count_byte(seq![x], c) == if x == c {
            1int
        } else {
            0int
        },
{
    assert(seq![x].drop_last() =~= Seq::<u8>::empty());
    assert(count_byte(Seq::<u8>::empty(), c) == 0);
}

proof fn lemma_hex_digits_no_nl(v: int, n: nat)
    ensures
        count_byte(hex_digits(v, n), 10) == 0,
    decreases n,
{
    if n > 0 {
        lemma_hex_digits_no_nl(v / 16, (n - 1) as nat);
        lemma_count_byte_concat(hex_digits(v / 16, (n - 1) as nat), seq![hex_digit(v % 16)], 10);
        lemma_count_single(hex_digit(v % 16), 10);
    }
}

proof fn lemma_hex_cols_upto_no_nl(row: Seq<u8>, j: int)
    ensures
        count_byte(hex_cols_upto(row, j), 10) == 0,
    decreases j,
{
    if j > 0 {
        lemma_hex_cols_upto_no_nl(row, j - 1);
        lemma_hex_digits_no_nl(row[j - 1] as int, 2);
        let gap: Seq<u8> = if j - 1 == 7 {
            seq![32u8]
        } else {
            Seq::<u8>::empty()
        };
        lemma_count_byte_concat(hex_cols_upto(row, j - 1), hex_digits(row[j - 1] as int, 2), 10);
        lemma_count_byte_concat(
            hex_cols_upto(row, j - 1) + hex_digits(row[j - 1] as int, 2),
            seq![32u8],
            10,
        );
        lemma_count_byte_concat(
            hex_cols_upto(row, j - 1) + hex_digits(row[j - 1] as int, 2) + seq![32u8],
            gap,
            10,
        );
        lemma_count_single(32u8, 10);
        lemma_count_byte_absent(gap, 10);
    }
}

proof fn lemma_hex_row_one_nl(off: int, row: Seq<u8>)
    ensures
        count_byte(hex_row(off, row), 10) == 1,
{
    lemma_hex_digits_no_nl(off, 8);
    lemma_hex_cols_upto_no_nl(row, row.len() as int);
    lemma_count_byte_absent(spaces(3), 10);
    lemma_count_byte_absent(hex_pad(row.len() as int), 10);
    lemma_count_byte_absent(ascii_render(row), 10);
    lemma_count_single(10u8, 10);
    let a = hex_digits(off, 8);
    let b = spaces(3);
    let c = hex_cols(row);
    let d = hex_pad(row.len() as int);
    let e = ascii_render(row);
    lemma_count_byte_concat(a, b, 10);
    lemma_count_byte_concat(a + b, c, 10);
    lemma_count_byte_concat(a + b + c, d, 10);
    lemma_count_byte_concat(a + b + c + d, b, 10);
    lemma_count_byte_concat(a + b + c + d + b, e, 10);
    lemma_count_byte_concat(a + b + c + d + b + e, seq![10u8], 10);
}

proof fn lemma_hex_rows_upto_nl(b: Seq<u8>, i: int)
    requires
        0 <= i,
    ensures
        count_byte(hex_rows_upto(b, i), 10) == i,
    decreases i,
{
    if i > 0 {
        lemma_hex_rows_upto_nl(b, i - 1);
        lemma_hex_row_one_nl(16 * (i - 1), row_bytes(b, i - 1));
        lemma_count_byte_concat(hex_rows_upto(b, i - 1), hex_row(16 * (i - 1), row_bytes(b, i - 1)), 10);
    }
}

/// Law: the hex dump of `b` has exactly `ceil(len / 16)` rows — its newline
/// count, each row ending in exactly one newline — and it is empty exactly
/// when `b` is.
pub proof fn lemma_hex_row_count(b: Seq<u8>)
    ensures
        count_byte(hex_encoding(b), 10) == row_count(b.len() as int),
        b.len() == 0 <==> hex_encoding(b).len() == 0,
{
    lemma_hex_rows_upto_nl(b, row_count(b.len() as int));
    if b.len() > 0 {
        lemma_hex_row_one_nl(0, row_bytes(b, 0));
        assert(hex_rows_upto(b, 1) == hex_rows_upto(b, 0) + hex_row(0, row_bytes(b, 0)));
        assert(count_byte(Seq::<u8>::empty(), 10) == 0);
        lemma_hex_rows_prefix(b, 1, row_count(b.len() as int));
    }
}

proof fn lemma_hex_rows_prefix(b: Seq<u8>, i: int, j: int)
    requires
        0 <= i <= j,
    ensures
        hex_rows_upto(b, i).len() <= hex_rows_upto(b, j).len(),
    decreases j - i,
{
    if i < j {
        lemma_hex_rows_prefix(b, i, j - 1);
    }
}

/// Law: the hex dump of `b` is the concatenation of `ceil(len / 16)` rows,
/// where row `i` shows the `i`-th run of sixteen bytes and starts at offset
/// `16 * i`.
pub proof fn lemma_hex_structure(b: Seq<u8>)
    ensures
        hex_encoding(b) == Seq::new(
            row_count(b.len() as int) as nat,
            |i: int| hex_row(16 * i, row_bytes(b, i)),
        ).flatten(),
{
    lemma_hex_rows_upto_flatten(b, row_count(b.len() as int));
}

proof fn lemma_hex_rows_upto_flatten(b: Seq<u8>, i: int)
    requires
        0 <= i,
    ensures
        hex_rows_upto(b, i) == Seq::new(i as nat, |k: int| hex_row(16 * k, row_bytes(b, k))).flatten(),
    decreases i,
{
    let m = Seq::new(i as nat, |k: int| hex_row(16 * k, row_bytes(b, k)));
    m.lemma_flatten_and_flatten_alt_are_equivalent();
    if i == 0 {
        assert(m.flatten_alt() =~= Seq::<u8>::empty());
    } else {
        lemma_hex_rows_upto_flatten(b, i - 1);
        let mp = Seq::new((i - 1) as nat, |k: int| hex_row(16 * k, row_bytes(b, k)));
        mp.lemma_flatten_and_flatten_alt_are_equivalent();
        assert(m.drop_last() =~= mp);
        assert(m.flatten_alt() == m.drop_last().flatten_alt() + m.last());
        assert(hex_rows_upto(b, i) =~= m.flatten_alt());
    }
}

proof fn lemma_hex_cols_upto_len(row: Seq<u8>, j: int)
    requires
        0 <= j,
    ensures
        hex_cols_upto(row, j).len() == 3 * j + if j >= 8 {
            1int
        } else {
            0int
        },
    decreases j,
{
    if j > 0 {
        lemma_hex_cols_upto_len(row, j - 1);
        lemma_hex_digits_len(row[j - 1] as int, 2);
    }
}

/// Law: every hex-dump row of `1..=16` bytes is `64 + len` bytes long; its
/// first eight bytes are the lowercase hex digits of its offset, the bytes
/// from column 63 on are the printable-filtered ASCII rendering of the same
/// bytes the hex columns show, and it ends with a newline.
pub proof fn lemma_hex_row_shape(off: int, row: Seq<u8>)
    requires
        1 <= row.len() <= 16,
    ensures
        hex_row(off, row).len() == 64 + row.len(),
        hex_row(off, row).subrange(0, 8) == hex_digits(off, 8),
        hex_row(off, row).subrange(63, 63 + row.len() as int) == ascii_render(row),
        hex_row(off, row).last() == 10u8,
{
    let l = row.len() as int;
    lemma_hex_digits_len(off, 8);
    lemma_hex_cols_upto_len(row, l);
    assert(hex_pad(l).len() == (if l < 8 { 1int } else { 0int }) + 3 * (16 - l));
    assert(hex_row(off, row).len() == 64 + l);
    assert(hex_row(off, row).subrange(0, 8) =~= hex_digits(off, 8));
    assert(hex_row(off, row).subrange(63, 63 + l) =~= ascii_render(row));
}

proof fn lemma_text_body_structure(b: Seq<u8>)
    ensures
        text_body(b) == Seq::new(b.len(), |i: int| text_byte(b[i])).flatten(),
    decreases b.len(),
{
    let m = Seq::new(b.len(), |i: int| text_byte(b[i]));
    m.lemma_flatten_and_flatten_alt_are_equivalent();
    if b.len() == 0 {
        assert(m.flatten_alt() =~= Seq::<u8>::empty());
    } else {
        lemma_text_body_structure(b.drop_last());
        let mp = Seq::new(b.drop_last().len(), |i: int| text_byte(b.drop_last()[i]));
        mp.lemma_flatten_and_flatten_alt_are_equivalent();
        assert(m.drop_last() =~= mp);
        assert(m.flatten_alt() == m.drop_last().flatten_alt() + m.last());
        assert(text_body(b) =~= m.flatten_alt());
    }
}

} // verus!
