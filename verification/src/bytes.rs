//! Byte offsets into UTF-8 text, and Base64.

use vstd::prelude::*;

verus! {

// ---------------------------------------------------------------------------
// UTF-8 lengths
// ---------------------------------------------------------------------------

/// The number of bytes of `c` in UTF-8.
pub open spec fn utf8_len(c: char) -> nat {
    if c as u32 <= 0x7f {
        1
    } else if c as u32 <= 0x7ff {
        2
    } else if c as u32 <= 0xffff {
        3
    } else {
        4
    }
}

/// The number of bytes of `s` in UTF-8.
pub open spec fn byte_len(s: Seq<char>) -> nat
    decreases s.len(),
{
    if s.len() == 0 {
        0
    } else {
        byte_len(s.drop_last()) + utf8_len(s.last())
    }
}

/// The byte offset of character position `i`.
pub open spec fn byte_at(s: Seq<char>, i: int) -> nat {
    byte_len(s.take(i))
}

/// Whether `offset` is the byte offset of some character position.
pub open spec fn on_boundary(s: Seq<char>, offset: nat) -> bool {
    exists|i: int| 0 <= i <= s.len() && #[trigger] byte_at(s, i) == offset
}

/// The character position at a byte offset.
pub open spec fn char_pos(s: Seq<char>, offset: nat) -> int {
    choose|i: int| 0 <= i <= s.len() && #[trigger] byte_at(s, i) == offset
}

/// The byte offset one character further on.
pub proof fn lemma_byte_next(s: Seq<char>, i: int)
    requires
        0 <= i < s.len(),
    ensures
        byte_at(s, i + 1) == byte_at(s, i) + utf8_len(s[i]),
{
    assert(s.take(i + 1).drop_last() =~= s.take(i));
}

/// Byte offsets grow with positions.
pub proof fn lemma_byte_monotonic(s: Seq<char>, i: int, j: int)
    requires
        0 <= i < j <= s.len(),
    ensures
        byte_at(s, i) < byte_at(s, j),
    decreases j - i,
{
    lemma_byte_next(s, j - 1);
    if i < j - 1 {
        lemma_byte_monotonic(s, i, j - 1);
    }
}

/// No two positions have the same byte offset.
pub proof fn lemma_char_pos(s: Seq<char>, i: int)
    requires
        0 <= i <= s.len(),
    ensures
        char_pos(s, byte_at(s, i)) == i,
        on_boundary(s, byte_at(s, i)),
{
    let j = char_pos(s, byte_at(s, i));
    assert(0 <= j <= s.len() && byte_at(s, j) == byte_at(s, i));
    if i < j {
        lemma_byte_monotonic(s, i, j);
    } else if j < i {
        lemma_byte_monotonic(s, j, i);
    }
}

/// The bytes of a text are those of its two parts.
pub proof fn lemma_byte_concat(a: Seq<char>, b: Seq<char>)
    ensures
        byte_len(a + b) == byte_len(a) + byte_len(b),
    decreases b.len(),
{
    if b.len() == 0 {
        assert(a + b =~= a);
    } else {
        assert((a + b).drop_last() =~= a + b.drop_last());
        lemma_byte_concat(a, b.drop_last());
    }
}

/// The end of the text is a boundary, and so is its start.
pub proof fn lemma_byte_ends(s: Seq<char>)
    ensures
        byte_at(s, 0) == 0,
        byte_at(s, s.len() as int) == byte_len(s),
{
    assert(s.take(0) =~= Seq::<char>::empty());
    assert(s.take(s.len() as int) =~= s);
}

/// The number of bytes of `c` in UTF-8.
pub fn char_len(c: char) -> (r: usize)
    ensures
        r == utf8_len(c),
        1 <= r <= 4,
{
    let code: u32 = c as u32;
    if code <= 0x7f {
        1
    } else if code <= 0x7ff {
        2
    } else if code <= 0xffff {
        3
    } else {
        4
    }
}

/// The number of bytes of `v` in UTF-8.
pub fn bytes_of(v: &Vec<char>) -> (r: u128)
    ensures
        r == byte_len(v@),
        r <= 4 * usize::MAX,
{
    let mut sum: u128 = 0;
    let n: usize = v.len();
    assert(v@.take(0) =~= Seq::<char>::empty());
    for i in 0..n
        invariant
            n == v@.len(),
            sum == byte_len(v@.take(i as int)),
            sum <= 4 * i,
    {
        assert(v@.take(i + 1).drop_last() =~= v@.take(i as int));
        sum = sum + char_len(v[i]) as u128;
    }
    assert(v@.take(n as int) =~= v@);
    sum
}

/// The character position at a byte offset.
pub fn position_at(v: &Vec<char>, offset: usize) -> (r: usize)
    requires
        on_boundary(v@, offset as nat),
    ensures
        r <= v@.len(),
        byte_at(v@, r as int) == offset,
        r == char_pos(v@, offset as nat),
{
    let ghost at = char_pos(v@, offset as nat);
    let mut i: usize = 0;
    let mut sum: u128 = 0;
    let n: usize = v.len();
    proof {
        lemma_byte_ends(v@);
    }
    while sum < offset as u128
        invariant
            n == v@.len(),
            0 <= i <= at <= v@.len(),
            byte_at(v@, at) == offset,
            sum == byte_at(v@, i as int),
        decreases at - i,
    {
        proof {
            if i == at {
                assert(false);
            }
            lemma_byte_next(v@, i as int);
        }
        sum = sum + char_len(v[i]) as u128;
        i = i + 1;
    }
    proof {
        if i < at {
            lemma_byte_monotonic(v@, i as int, at);
        }
    }
    i
}

/// Byte offset of character position `i`.
pub fn offset_of(v: &Vec<char>, i: usize) -> (r: u128)
    requires
        i <= v@.len(),
    ensures
        r == byte_at(v@, i as int),
        r <= 4 * i,
{
    let mut sum: u128 = 0;
    assert(v@.take(0) =~= Seq::<char>::empty());
    for k in 0..i
        invariant
            i <= v@.len(),
            sum == byte_at(v@, k as int),
            sum <= 4 * k,
    {
        proof {
            lemma_byte_next(v@, k as int);
        }
        sum = sum + char_len(v[k]) as u128;
    }
    sum
}

// ---------------------------------------------------------------------------
// Base64
// ---------------------------------------------------------------------------

/// The Base64 symbol of a six-bit number.
pub open spec fn symbol(n: nat) -> char {
    if n < 26 {
        (65 + n) as char
    } else if n < 52 {
        (97 + n - 26) as char
    } else if n < 62 {
        (48 + n - 52) as char
    } else if n == 62 {
        '+'
    } else {
        '/'
    }
}

/// The 24-bit number of up to three bytes, missing ones counting as zero.
pub open spec fn triple(group: Seq<u8>) -> nat {
    let second = if group.len() > 1 {
        group[1] as nat
    } else {
        0
    };
    let third = if group.len() > 2 {
        group[2] as nat
    } else {
        0
    };
    group[0] as nat * 65536 + second * 256 + third
}

/// The four symbols of a group of one to three bytes.
#[verifier::opaque]
pub open spec fn quartet(group: Seq<u8>) -> Seq<char> {
    let n = triple(group);
    seq![
        symbol(n / 262144),
        symbol(n / 4096 % 64),
        if group.len() > 1 {
            symbol(n / 64 % 64)
        } else {
            '='
        },
        if group.len() > 2 {
            symbol(n % 64)
        } else {
            '='
        },
    ]
}

/// The Base64 encoding.
pub open spec fn base64(input: Seq<u8>) -> Seq<char>
    decreases input.len(),
{
    if input.len() == 0 {
        Seq::empty()
    } else if input.len() <= 3 {
        quartet(input)
    } else {
        quartet(input.take(3)) + base64(input.skip(3))
    }
}

/// The Base64 symbol of a six-bit number.
fn symbol_of(n: u32) -> (r: char)
    requires
        n < 64,
    ensures
        r == symbol(n as nat),
{
    let code: u8 = if n < 26 {
        65 + n as u8
    } else if n < 52 {
        97 + (n as u8 - 26)
    } else if n < 62 {
        48 + (n as u8 - 52)
    } else if n == 62 {
        43
    } else {
        47
    };
    code as char
}

/// Appends the four symbols of the bytes `input[at..at + len]`.
fn push_quartet(out: &mut String, input: &[u8], at: usize, len: usize)
    requires
        1 <= len <= 3,
        at + len <= input@.len(),
    ensures
        final(out)@ == old(out)@ + quartet(input@.subrange(at as int, at + len)),
{
    let ghost group = input@.subrange(at as int, at + len);
    proof {
        reveal(quartet);
    }
    let b0: u32 = input[at] as u32;
    let b1: u32 = if len > 1 {
        input[at + 1] as u32
    } else {
        0
    };
    let b2: u32 = if len > 2 {
        input[at + 2] as u32
    } else {
        0
    };
    let n: u32 = b0 * 65536 + b1 * 256 + b2;
    assert(n == triple(group));
    out.push(symbol_of(n / 262144));
    out.push(symbol_of(n / 4096 % 64));
    out.push(
        if len > 1 {
            symbol_of(n / 64 % 64)
        } else {
            '='
        },
    );
    out.push(
        if len > 2 {
            symbol_of(n % 64)
        } else {
            '='
        },
    );
    assert(out@ =~= old(out)@ + quartet(group));
}

/// The Base64 encoding of `input`.
pub fn base64_encode(input: &[u8]) -> (r: String)
    ensures
        r@ == base64(input@),
{
    let mut out = String::new();
    let n: usize = input.len();
    let mut at: usize = 0;
    assert(input@.skip(0) =~= input@);
    assert(out@ + base64(input@.skip(0)) =~= base64(input@));
    while n - at > 3
        invariant
            at <= n == input@.len(),
            out@ + base64(input@.skip(at as int)) == base64(input@),
        decreases n - at,
    {
        let ghost rest = input@.skip(at as int);
        let ghost before = out@;
        push_quartet(&mut out, input, at, 3);
        assert(input@.subrange(at as int, at + 3) =~= rest.take(3));
        assert(input@.skip(at + 3) =~= rest.skip(3));
        assert(out@ + base64(input@.skip(at + 3)) =~= before + base64(rest));
        at = at + 3;
    }
    if at < n {
        let ghost rest = input@.skip(at as int);
        push_quartet(&mut out, input, at, n - at);
        assert(input@.subrange(at as int, n as int) =~= rest);
    } else {
        assert(input@.skip(at as int) =~= Seq::<u8>::empty());
        assert(out@ + Seq::<char>::empty() =~= out@);
    }
    out
}

// ---------------------------------------------------------------------------
// Laws of the encoding
// ---------------------------------------------------------------------------

/// The six-bit number of a symbol: zero for padding.
pub open spec fn symbol_value(c: char) -> nat {
    if 'A' <= c <= 'Z' {
        (c as nat - 65) as nat
    } else if 'a' <= c <= 'z' {
        (c as nat - 97 + 26) as nat
    } else if '0' <= c <= '9' {
        (c as nat - 48 + 52) as nat
    } else if c == '+' {
        62
    } else if c == '/' {
        63
    } else {
        0
    }
}

/// The bytes of four symbols, without those that padding stands for.
#[verifier::opaque]
pub open spec fn quartet_bytes(q: Seq<char>) -> Seq<u8> {
    let n = symbol_value(q[0]) * 262144 + symbol_value(q[1]) * 4096 + symbol_value(q[2]) * 64
        + symbol_value(q[3]);
    let all = seq![(n / 65536) as u8, (n / 256 % 256) as u8, (n % 256) as u8];
    if q[2] == '=' {
        all.take(1)
    } else if q[3] == '=' {
        all.take(2)
    } else {
        all
    }
}

/// Reads an encoding back.
pub open spec fn unbase64(text: Seq<char>) -> Seq<u8>
    decreases text.len(),
{
    if text.len() < 4 {
        Seq::empty()
    } else {
        quartet_bytes(text.take(4)) + unbase64(text.skip(4))
    }
}

proof fn lemma_symbol_value(n: nat)
    requires
        n < 64,
    ensures
        symbol_value(symbol(n)) == n,
        symbol(n) != '=',
{
}

proof fn lemma_sextets(n: nat)
    requires
        n < 16777216,
    ensures
        n / 262144 < 64,
        n / 262144 * 262144 + n / 4096 % 64 * 4096 + n / 64 % 64 * 64 + n % 64 == n,
{
}

proof fn lemma_triple(b0: nat, b1: nat, b2: nat)
    requires
        b0 < 256,
        b1 < 256,
        b2 < 256,
    ensures
        ({
            let n = b0 * 65536 + b1 * 256 + b2;
            &&& n < 16777216
            &&& n / 65536 == b0
            &&& n / 256 % 256 == b1
            &&& n % 256 == b2
            &&& b2 == 0 ==> n % 64 == 0
            &&& b1 == 0 && b2 == 0 ==> n / 64 % 64 == 0
        }),
{
}

#[verifier::spinoff_prover]
proof fn lemma_quartet(group: Seq<u8>)
    requires
        1 <= group.len() <= 3,
    ensures
        quartet_bytes(quartet(group)) == group,
        quartet(group).len() == 4,
{
    reveal(quartet);
    reveal(quartet_bytes);
    let n = triple(group);
    let q = quartet(group);
    let b1 = if group.len() > 1 {
        group[1] as nat
    } else {
        0
    };
    let b2 = if group.len() > 2 {
        group[2] as nat
    } else {
        0
    };
    lemma_triple(group[0] as nat, b1, b2);
    lemma_sextets(n);
    lemma_symbol_value(n / 262144);
    lemma_symbol_value(n / 4096 % 64);
    lemma_symbol_value(n / 64 % 64);
    lemma_symbol_value(n % 64);
    assert(symbol_value('=') == 0);
    assert(symbol_value(q[0]) == n / 262144);
    assert(symbol_value(q[1]) == n / 4096 % 64);
    assert(symbol_value(q[2]) == n / 64 % 64);
    assert(symbol_value(q[3]) == n % 64);
    assert(quartet_bytes(q) =~= group);
}

/// What was encoded can be read back.
pub proof fn lemma_base64_round_trip(input: Seq<u8>)
    ensures
        unbase64(base64(input)) == input,
    decreases input.len(),
{
    if input.len() == 0 {
    } else if input.len() <= 3 {
        let q = quartet(input);
        lemma_quartet(input);
        assert(q.take(4) =~= q);
        assert(unbase64(q.skip(4)) =~= Seq::<u8>::empty());
        assert(unbase64(q) =~= input);
    } else {
        let q = quartet(input.take(3));
        let rest = base64(input.skip(3));
        lemma_quartet(input.take(3));
        lemma_base64_round_trip(input.skip(3));
        assert((q + rest).take(4) =~= q);
        assert((q + rest).skip(4) =~= rest);
        assert(unbase64(q + rest) =~= input);
    }
}

/// An encoding has four symbols for every three bytes, the last group counting
/// as a full one.
pub proof fn lemma_base64_len(input: Seq<u8>)
    ensures
        base64(input).len() == (input.len() + 2) / 3 * 4,
    decreases input.len(),
{
    reveal(quartet);
    if input.len() > 3 {
        lemma_base64_len(input.skip(3));
    }
}

} // verus!
