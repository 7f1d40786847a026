use vstd::prelude::*;

use crate::codec::{lznt1_decompress, lznt1_expand};

verus! {

/// The little-endian u16 at `i`.
pub open spec fn le16_at(b: Seq<u8>, i: int) -> nat {
    b[i] as nat + b[i + 1] as nat * 256
}

/// The mask that selects the length bits of a back-reference token whose
/// copy starts `pos` bytes after the first byte its chunk produced: it
/// loses one bit each time `pos` is halved down below 16.
pub open spec fn token_mask(pos: nat, mask: u32) -> u32
    decreases pos,
{
    if pos < 16 {
        mask
    } else {
        token_mask(pos / 2, mask >> 1)
    }
}

/// How many bytes a back-reference token `f` copies when its chunk has
/// produced `out` bytes before it.
pub open spec fn token_length(f: nat, out: nat) -> nat {
    ((f as u32) & token_mask((out - 1) as nat, 0xFFFu32)) as nat + 3
}

/// Walks the items of a compressed chunk from `i`, the chunk's data ending
/// at `end`: `left` items remain under the current flag byte, whose unread
/// bits are `flags`, and the chunk has produced `out` bytes. Holds when no
/// back-reference token lacks its second byte, comes before any byte of its
/// chunk, or starts 0x10000 bytes or more into its chunk's output.
pub open spec fn items_framed(b: Seq<u8>, i: int, end: int, out: nat, left: nat, flags: nat) -> bool
    decreases end + 2 - i,
{
    if i >= end || i < 0 {
        true
    } else if left == 0 {
        items_framed(b, i + 1, end, out, 8, b[i] as nat)
    } else if flags % 2 == 0 {
        items_framed(b, i + 1, end, out + 1, (left - 1) as nat, flags / 2)
    } else if i + 1 >= b.len() || out == 0 || out > 0x10000 {
        false
    } else {
        items_framed(
            b,
            i + 2,
            end,
            out + token_length(le16_at(b, i), out),
            (left - 1) as nat,
            flags / 2,
        )
    }
}

/// Walks the chunks of an LZNT1 stream from `c`. Holds when every chunk
/// header has both its bytes, and every compressed chunk is framed as
/// `items_framed` says. A chunk that claims more bytes than remain is
/// refused by the codec itself, so the walk ends there.
pub open spec fn chunks_framed(b: Seq<u8>, c: int) -> bool
    decreases b.len() - c,
{
    if c >= b.len() || c < 0 {
        true
    } else if c + 1 >= b.len() {
        false
    } else {
        let h = le16_at(b, c);
        let len = h % 4096 + 1;
        if len > b.len() - (c + 2) {
            true
        } else if h >= 0x8000 && !items_framed(b, c + 2, c + 2 + len, 0, 0, 0) {
            false
        } else {
            chunks_framed(b, c + 2 + len)
        }
    }
}

/// The streams that the LZNT1 codec reads to the end without running past
/// its input or its arithmetic.
pub open spec fn lznt1_framed(b: Seq<u8>) -> bool {
    chunks_framed(b, 0)
}

/// What decompressing a payload gives: the codec's expansion of a framed
/// stream, and `None`, as for any malformed stream, otherwise.
pub open spec fn lznt1_result(b: Seq<u8>) -> Option<Seq<u8>> {
    if lznt1_framed(b) {
        lznt1_expand(b)
    } else {
        None
    }
}

fn token_mask_of(pos: u32) -> (m: u32)
    ensures
        m == token_mask(pos as nat, 0xFFFu32),
        m <= 0xFFF,
{
    let mut p = pos;
    let mut m: u32 = 0xFFF;
    while p >= 16
        invariant
            token_mask(pos as nat, 0xFFFu32) == token_mask(p as nat, m),
            m <= 0xFFF,
        decreases p,
    {
        assert(m >> 1 <= m) by (bit_vector);
        p = p / 2;
        m = m >> 1;
    }
    m
}

fn items_framed_check(b: &[u8], start: usize, end: usize) -> (r: bool)
    requires
        start <= end <= b@.len(),
        end - start <= 4096,
    ensures
        r == items_framed(b@, start as int, end as int, 0, 0, 0),
{
    let n = b.len();
    let mut i = start;
    let mut out: u32 = 0;
    let mut left: u32 = 0;
    let mut flags: u8 = 0;
    while i < end
        invariant
            n == b@.len(),
            start <= i <= end + 1,
            end <= n,
            end - start <= 4096,
            out <= 0x10000 + 0x1002 + (i - start),
            left <= 8,
            items_framed(b@, start as int, end as int, 0, 0, 0) == items_framed(
                b@,
                i as int,
                end as int,
                out as nat,
                left as nat,
                flags as nat,
            ),
        decreases end + 2 - i,
    {
        if left == 0 {
            flags = b[i];
            i += 1;
            left = 8;
        } else if flags % 2 == 0 {
            out += 1;
            i += 1;
            left -= 1;
            flags = flags / 2;
        } else {
            if i + 1 >= n || out == 0 || out > 0x10000 {
                return false;
            }
            let f: u32 = b[i] as u32 + (b[i + 1] as u32) * 256;
            let m = token_mask_of(out - 1);
            let bits = f & m;
            assert(f & m <= m) by (bit_vector);
            out = out + bits + 3;
            i += 2;
            left -= 1;
            flags = flags / 2;
        }
    }
    true
}

/// Tells whether `b` is a stream that `lznt1_framed` admits.
pub fn lznt1_framed_check(b: &[u8]) -> (r: bool)
    ensures
        r == lznt1_framed(b@),
{
    let n = b.len();
    let mut c: usize = 0;
    while c < n
        invariant
            n == b@.len(),
            c <= n,
            lznt1_framed(b@) == chunks_framed(b@, c as int),
        decreases n - c,
    {
        if c + 1 >= n {
            return false;
        }
        let h: u32 = b[c] as u32 + (b[c + 1] as u32) * 256;
        let len = (h % 4096) as usize + 1;
        if len > n - (c + 2) {
            return true;
        }
        if h >= 0x8000 && !items_framed_check(b, c + 2, c + 2 + len) {
            return false;
        }
        c = c + 2 + len;
    }
    true
}

/// Decompresses a payload when it is framed; `None` otherwise, or where the
/// codec refuses it.
pub fn lznt1_run(b: &[u8]) -> (r: Option<Vec<u8>>)
    ensures
        match r {
            Some(v) => lznt1_result(b@) == Some(v@),
            None => lznt1_result(b@) is None,
        },
{
    if lznt1_framed_check(b) {
        lznt1_decompress(b)
    } else {
        None
    }
}

} // verus!
