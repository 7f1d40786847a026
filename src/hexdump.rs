use vstd::prelude::*;

verus! {

/// The ASCII lowercase hex digit for `d` (below 16).
pub open spec fn hex_digit(d: nat) -> u8 {
    if d < 10 {
        (48 + d) as u8
    } else {
        (87 + d) as u8
    }
}

/// `v` written as `w` lowercase hex digits, most significant first.
pub open spec fn hex_width(v: nat, w: nat) -> Seq<u8>
    decreases w,
{
    if w == 0 {
        Seq::empty()
    } else {
        hex_width(v / 16, (w - 1) as nat).push(hex_digit(v % 16))
    }
}

/// How a byte shows in the text column: itself when printable, else '.'.
pub open spec fn shown(b: u8) -> u8 {
    if 32 <= b <= 126 {
        b
    } else {
        46u8
    }
}

/// The text column for `s`.
pub open spec fn chars_of(s: Seq<u8>) -> Seq<u8> {
    s.map_values(|b: u8| shown(b))
}

/// The address that opens each row of 16 bytes.
pub open spec fn piece_head(addr: u64, i: int) -> Seq<u8> {
    if i % 16 == 0 {
        hex_width(addr.wrapping_add(i as u64) as nat, 16) + seq![58u8, 32u8]
    } else {
        Seq::empty()
    }
}

/// What follows byte `i`: a space, or at the end of a full row two spaces
/// and the text column of the row's first 15 bytes, with a newline unless
/// it is the last byte; nothing after the last byte of a short row.
pub open spec fn piece_tail(bytes: Seq<u8>, i: int) -> Seq<u8> {
    if (i + 1) % 16 == 0 {
        seq![32u8, 32u8] + chars_of(bytes.subrange(i - 15, i)) + if i + 1 == bytes.len() {
            Seq::empty()
        } else {
            seq![10u8]
        }
    } else if i + 1 == bytes.len() {
        Seq::empty()
    } else {
        seq![32u8]
    }
}

/// What the dump writes for byte `i`.
pub open spec fn piece(addr: u64, bytes: Seq<u8>, i: int) -> Seq<u8> {
    piece_head(addr, i) + hex_width(bytes[i] as nat, 2) + piece_tail(bytes, i)
}

/// The pieces of the first `k` bytes.
pub open spec fn pieces(addr: u64, bytes: Seq<u8>, k: nat) -> Seq<u8>
    decreases k,
{
    if k == 0 {
        Seq::empty()
    } else {
        pieces(addr, bytes, (k - 1) as nat) + piece(addr, bytes, k - 1)
    }
}

/// Three spaces for each of `n` missing bytes of a short last row.
pub open spec fn padding(n: nat) -> Seq<u8>
    decreases n,
{
    if n == 0 {
        Seq::empty()
    } else {
        padding((n - 1) as nat) + seq![32u8, 32u8, 32u8]
    }
}

/// The whole dump of `bytes` at address `addr`, as ASCII bytes: rows of 16
/// bytes; a short last row is padded to full width and followed by its
/// text column.
pub open spec fn hexdump_bytes(addr: u64, bytes: Seq<u8>) -> Seq<u8> {
    let n = bytes.len();
    let rem = n % 16;
    pieces(addr, bytes, n) + if rem == 0 {
        Seq::empty()
    } else {
        padding((16 - rem) as nat) + seq![32u8, 32u8] + chars_of(bytes.subrange(n - rem, n as int))
    }
}

/// Every byte is ASCII.
pub open spec fn ascii(s: Seq<u8>) -> bool {
    forall|i: int| 0 <= i < s.len() ==> s[i] < 128
}

/// The text column for `bytes`.
fn bytes_to_chars(bytes: &Vec<u8>) -> (r: Vec<u8>)
    ensures
        r@ == chars_of(bytes@),
        ascii(r@),
{
    let mut s: Vec<u8> = Vec::new();
    let mut i: usize = 0;
    while i < bytes.len()
        invariant
            i <= bytes@.len(),
            s@ =~= chars_of(bytes@.subrange(0, i as int)),
            ascii(s@),
        decreases bytes@.len() - i,
    {
        let b = bytes[i];
        if b >= 32 && b <= 126 {
            s.push(b);
        } else {
            s.push(46u8);
        }
        i += 1;
        assert(bytes@.subrange(0, i as int) =~= bytes@.subrange(0, i - 1).push(b));
    }
    assert(bytes@.subrange(0, i as int) =~= bytes@);
    s
}

fn push_hex(out: &mut Vec<u8>, v: u64, w: usize)
    requires
        ascii(old(out)@),
    ensures
        final(out)@ == old(out)@ + hex_width(v as nat, w as nat),
        ascii(final(out)@),
    decreases w,
{
    if w == 0 {
        assert(old(out)@ + hex_width(v as nat, 0) =~= old(out)@);
    } else {
        push_hex(out, v / 16, w - 1);
        let d = (v % 16) as u8;
        let c = if d < 10 {
            48 + d
        } else {
            87 + d
        };
        out.push(c);
        assert(final(out)@ =~= old(out)@ + hex_width(v as nat, w as nat));
    }
}

fn push_all(out: &mut Vec<u8>, s: Vec<u8>)
    requires
        ascii(old(out)@),
        ascii(s@),
    ensures
        final(out)@ == old(out)@ + s@,
        ascii(final(out)@),
{
    let mut s = s;
    out.append(&mut s);
}

/// Relies on `String::from_utf8`, which accepts every valid UTF-8 byte
/// string; ASCII bytes decode one character each.
#[verifier::external_body]
fn ascii_string(b: Vec<u8>) -> (r: String)
    requires
        ascii(b@),
    ensures
        r@ == b@.map_values(|c: u8| c as char),
{
    match String::from_utf8(b) {
        Ok(s) => s,
        Err(_) => String::new(),
    }
}

fn push_piece(s: &mut Vec<u8>, line: &Vec<u8>, addr: u64, bytes: &Vec<u8>, i: usize)
    requires
        i < bytes@.len(),
        ascii(old(s)@),
        line@ == bytes@.subrange(i - i % 16, i as int),
    ensures
        final(s)@ == old(s)@ + piece(addr, bytes@, i as int),
        ascii(final(s)@),
{
    let n = bytes.len();
    if i % 16 == 0 {
        push_hex(s, addr.wrapping_add(i as u64), 16);
        s.push(58u8);
        s.push(32u8);
    }
    assert(s@ =~= old(s)@ + piece_head(addr, i as int));
    let ghost mid = s@;
    push_hex(s, bytes[i] as u64, 2);
    let ghost hexed = s@;
    if (i + 1) % 16 == 0 {
        assert(i - i % 16 == i - 15);
        s.push(32u8);
        s.push(32u8);
        push_all(s, bytes_to_chars(line));
        if i + 1 != n {
            s.push(10u8);
        }
    } else if i + 1 != n {
        s.push(32u8);
    }
    assert(s@ =~= hexed + piece_tail(bytes@, i as int));
    assert(s@ =~= old(s)@ + piece(addr, bytes@, i as int));
}

/// A dump of `bytes` as addressed rows of 16 bytes in hex with a text
/// column, rows separated by newlines and no newline at the end.
pub fn hexdump(addr: u64, bytes: &Vec<u8>) -> (r: String)
    ensures
        r@ == hexdump_bytes(addr, bytes@).map_values(|c: u8| c as char),
{
    let mut s: Vec<u8> = Vec::new();
    let mut line: Vec<u8> = Vec::new();
    let n = bytes.len();
    let mut i: usize = 0;
    while i < n
        invariant
            n == bytes@.len(),
            i <= n,
            s@ == pieces(addr, bytes@, i as nat),
            ascii(s@),
            line@ == bytes@.subrange(i - i % 16, i as int),
        decreases n - i,
    {
        let byte = bytes[i];
        push_piece(&mut s, &line, addr, bytes, i);
        if (i + 1) % 16 == 0 {
            line = Vec::new();
        } else {
            line.push(byte);
        }
        i += 1;
        assert(line@ =~= bytes@.subrange(i - i % 16, i as int));
    }
    if line.len() != 0 {
        let missing = 16 - line.len();
        let mut k: usize = 0;
        while k < missing
            invariant
                s@ == pieces(addr, bytes@, n as nat) + padding(k as nat),
                ascii(s@),
                n == bytes@.len(),
                k <= missing,
            decreases missing - k,
        {
            s.push(32u8);
            s.push(32u8);
            s.push(32u8);
            k += 1;
        }
        s.push(32u8);
        s.push(32u8);
        push_all(&mut s, bytes_to_chars(&line));
    }
    assert(s@ =~= hexdump_bytes(addr, bytes@));
    ascii_string(s)
}

} // verus!
