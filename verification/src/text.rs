//! Text: what callers may pass where text is wanted, and numbers written out.

use vstd::prelude::*;
use vstd::string::*;

verus! {

/// `String::push` appends one character.
pub assume_specification[ String::push ](s: &mut String, c: char)
    ensures
        final(s)@ == old(s)@.push(c),
;

/// What can be handed over where an owned text is wanted.
pub trait IntoText: Sized {
    /// The characters.
    spec fn text(&self) -> Seq<char>;

    /// The characters as an owned text.
    fn into_text(self) -> (s: String)
        ensures
            s@ == self.text(),
    ;
}

impl IntoText for String {
    open spec fn text(&self) -> Seq<char> {
        self@
    }

    fn into_text(self) -> (s: String) {
        self
    }
}

impl IntoText for &str {
    open spec fn text(&self) -> Seq<char> {
        self@
    }

    fn into_text(self) -> (s: String) {
        self.to_owned()
    }
}

impl IntoText for &String {
    open spec fn text(&self) -> Seq<char> {
        self@
    }

    fn into_text(self) -> (s: String) {
        self.clone()
    }
}

/// The character of a decimal digit.
pub open spec fn decimal_digit(d: nat) -> char {
    ('0' as u32 + d) as char
}

/// A number written in decimal, without leading zeros.
pub open spec fn decimal(n: nat) -> Seq<char>
    decreases n,
{
    if n < 10 {
        seq![decimal_digit(n)]
    } else {
        decimal(n / 10).push(decimal_digit(n % 10))
    }
}

/// The character of a decimal digit.
fn digit_char(d: u8) -> (c: char)
    requires
        d < 10,
    ensures
        c == decimal_digit(d as nat),
{
    ('0' as u8 + d) as char
}

/// Appends a number in decimal.
pub fn push_decimal(s: &mut String, n: u128)
    ensures
        final(s)@ == old(s)@ + decimal(n as nat),
    decreases n,
{
    if n >= 10 {
        push_decimal(s, n / 10);
    }
    s.push(digit_char((n % 10) as u8));
    proof {
        assert(s@ =~= old(s)@ + decimal(n as nat));
    }
}

/// The character of a hexadecimal digit in lower case.
pub open spec fn hex_digit(d: u64) -> char {
    if d < 10 {
        ('0' as u32 + d) as char
    } else {
        ('a' as u32 + (d - 10)) as char
    }
}

/// The digit at place `i`, counted from the left, of a number of 16 hexadecimal digits.
pub open spec fn nibble(n: u64, i: int) -> u64 {
    (n >> ((60 - 4 * i) as u64)) & 0xf
}

/// A number written with 16 hexadecimal digits in lower case.
pub open spec fn hex16(n: u64) -> Seq<char> {
    Seq::new(16, |i: int| hex_digit(nibble(n, i)))
}

/// Appends a number as 16 hexadecimal digits in lower case.
pub fn push_hex16(s: &mut String, n: u64)
    ensures
        final(s)@ == old(s)@ + hex16(n),
{
    let mut i: u64 = 0;
    while i < 16
        invariant
            i <= 16,
            s@ == old(s)@ + hex16(n).take(i as int),
        decreases 16 - i,
    {
        let d: u64 = (n >> (60 - 4 * i)) & 0xf;
        assert(d < 16) by (bit_vector)
            requires
                d == (n >> ((60 - 4 * i) as u64)) & 0xf,
        ;
        let c: char = if d < 10 {
            ('0' as u8 + d as u8) as char
        } else {
            ('a' as u8 + (d as u8 - 10)) as char
        };
        s.push(c);
        proof {
            assert(hex16(n).take(i + 1) =~= hex16(n).take(i as int).push(hex_digit(nibble(n, i as int))));
            assert(s@ =~= old(s)@ + hex16(n).take(i + 1));
        }
        i = i + 1;
    }
    proof {
        assert(hex16(n).take(16) =~= hex16(n));
    }
}

/// Different digits have different characters.
proof fn lemma_hex_digit_injective(a: u64, b: u64)
    requires
        a < 16,
        b < 16,
        hex_digit(a) == hex_digit(b),
    ensures
        a == b,
{
}

/// Different numbers are written differently.
pub proof fn hex16_injective(a: u64, b: u64)
    requires
        hex16(a) == hex16(b),
    ensures
        a == b,
{
    assert forall|i: int| 0 <= i < 16 implies #[trigger] nibble(a, i) == nibble(b, i) by {
        let k: u64 = (60 - 4 * i) as u64;
        assert((a >> k) & 0xf < 16) by (bit_vector);
        assert((b >> k) & 0xf < 16) by (bit_vector);
        assert(hex16(a)[i] == hex_digit(nibble(a, i)));
        assert(hex16(b)[i] == hex_digit(nibble(b, i)));
        lemma_hex_digit_injective(nibble(a, i), nibble(b, i));
    }
    assert(nibble(a, 0) == nibble(b, 0));
    assert(nibble(a, 1) == nibble(b, 1));
    assert(nibble(a, 2) == nibble(b, 2));
    assert(nibble(a, 3) == nibble(b, 3));
    assert(nibble(a, 4) == nibble(b, 4));
    assert(nibble(a, 5) == nibble(b, 5));
    assert(nibble(a, 6) == nibble(b, 6));
    assert(nibble(a, 7) == nibble(b, 7));
    assert(nibble(a, 8) == nibble(b, 8));
    assert(nibble(a, 9) == nibble(b, 9));
    assert(nibble(a, 10) == nibble(b, 10));
    assert(nibble(a, 11) == nibble(b, 11));
    assert(nibble(a, 12) == nibble(b, 12));
    assert(nibble(a, 13) == nibble(b, 13));
    assert(nibble(a, 14) == nibble(b, 14));
    assert(nibble(a, 15) == nibble(b, 15));
    assert(a == b) by (bit_vector)
        requires
            (a >> 60u64) & 0xf == (b >> 60u64) & 0xf,
            (a >> 56u64) & 0xf == (b >> 56u64) & 0xf,
            (a >> 52u64) & 0xf == (b >> 52u64) & 0xf,
            (a >> 48u64) & 0xf == (b >> 48u64) & 0xf,
            (a >> 44u64) & 0xf == (b >> 44u64) & 0xf,
            (a >> 40u64) & 0xf == (b >> 40u64) & 0xf,
            (a >> 36u64) & 0xf == (b >> 36u64) & 0xf,
            (a >> 32u64) & 0xf == (b >> 32u64) & 0xf,
            (a >> 28u64) & 0xf == (b >> 28u64) & 0xf,
            (a >> 24u64) & 0xf == (b >> 24u64) & 0xf,
            (a >> 20u64) & 0xf == (b >> 20u64) & 0xf,
            (a >> 16u64) & 0xf == (b >> 16u64) & 0xf,
            (a >> 12u64) & 0xf == (b >> 12u64) & 0xf,
            (a >> 8u64) & 0xf == (b >> 8u64) & 0xf,
            (a >> 4u64) & 0xf == (b >> 4u64) & 0xf,
            (a >> 0u64) & 0xf == (b >> 0u64) & 0xf,
    ;
}

/// The character of a hexadecimal digit in upper case.
pub open spec fn upper_hex_digit(d: u8) -> char {
    if d < 10 {
        ('0' as u32 + d) as char
    } else {
        ('A' as u32 + (d - 10)) as char
    }
}

/// Bytes written as two upper-case hexadecimal digits each.
pub open spec fn upper_hex(bytes: Seq<u8>) -> Seq<char> {
    Seq::new(
        2 * bytes.len(),
        |i: int|
            upper_hex_digit(
                if i % 2 == 0 {
                    bytes[i / 2] / 16
                } else {
                    bytes[i / 2] % 16
                },
            ),
    )
}

/// The character of a hexadecimal digit in upper case.
fn upper_hex_char(d: u8) -> (c: char)
    requires
        d < 16,
    ensures
        c == upper_hex_digit(d),
{
    if d < 10 {
        ('0' as u8 + d) as char
    } else {
        ('A' as u8 + (d - 10)) as char
    }
}

/// Writes bytes as two upper-case hexadecimal digits each.
pub fn upper_hex_string(bytes: &[u8]) -> (s: String)
    ensures
        s@ == upper_hex(bytes@),
{
    let mut s = String::new();
    let mut i: usize = 0;
    while i < bytes.len()
        invariant
            i <= bytes@.len(),
            s@ == upper_hex(bytes@).take(2 * i as int),
        decreases bytes@.len() - i,
    {
        let b: u8 = bytes[i];
        s.push(upper_hex_char(b / 16));
        s.push(upper_hex_char(b % 16));
        proof {
            let all = upper_hex(bytes@);
            assert(all[2 * i as int] == upper_hex_digit(b / 16)) by {
                assert((2 * i as int) / 2 == i && (2 * i as int) % 2 == 0);
            }
            assert(all[2 * i as int + 1] == upper_hex_digit(b % 16)) by {
                assert((2 * i as int + 1) / 2 == i && (2 * i as int + 1) % 2 == 1);
            }
            assert(s@ =~= all.take(2 * (i + 1)));
        }
        i = i + 1;
    }
    proof {
        assert(upper_hex(bytes@).take(2 * bytes@.len() as int) =~= upper_hex(bytes@));
    }
    s
}

/// Whether two texts hold the same characters.
pub fn same_text(a: &str, b: &str) -> (same: bool)
    ensures
        same == (a@ == b@),
{
    a.to_owned() == b.to_owned()
}

/// What a hexadecimal digit in lower case stands for.
pub open spec fn hex_value(c: char) -> nat {
    if '0' <= c && c <= '9' {
        (c as u32 - '0' as u32) as nat
    } else {
        (c as u32 - 'a' as u32 + 10) as nat
    }
}

/// The number that hexadecimal digits write.
pub open spec fn read_hex(text: Seq<char>) -> nat
    decreases text.len(),
{
    if text.len() == 0 {
        0
    } else {
        read_hex(text.drop_last()) * 16 + hex_value(text.last())
    }
}

/// The first digits write the number without those that are missing.
proof fn lemma_hex_front(n: u64, k: nat)
    requires
        1 <= k <= 16,
    ensures
        read_hex(hex16(n).take(k as int)) == n >> ((64 - 4 * k) as u64),
    decreases k,
{
    let part = hex16(n).take(k as int);
    let shift: u64 = (64 - 4 * k) as u64;
    let d = nibble(n, k - 1);
    assert(part.drop_last() =~= hex16(n).take(k - 1));
    assert(part.last() == hex_digit(d));
    assert((n >> shift) & 0xf < 16) by (bit_vector);
    assert(hex_value(hex_digit(d)) == d);
    if k == 1 {
        assert(hex16(n).take(0) =~= Seq::empty());
        assert(read_hex(part.drop_last()) == 0);
        assert((n >> 60u64) & 0xf == n >> 60u64) by (bit_vector);
    } else {
        lemma_hex_front(n, (k - 1) as nat);
        let more: u64 = (shift + 4) as u64;
        assert(n >> shift == (n >> more) * 16 + ((n >> shift) & 0xf)) by (bit_vector)
            requires
                more == shift + 4,
                shift <= 56,
        ;
    }
}

/// A number written in hexadecimal has 16 digits, in lower case, and they write the number.
pub proof fn hex_reads_back(n: u64, i: int)
    requires
        0 <= i < 16,
    ensures
        hex16(n).len() == 16,
        read_hex(hex16(n)) == n,
        '0' <= hex16(n)[i] && hex16(n)[i] <= '9' || 'a' <= hex16(n)[i] && hex16(n)[i] <= 'f',
{
    lemma_hex_front(n, 16);
    assert(hex16(n).take(16) =~= hex16(n));
    assert(n >> 0u64 == n) by (bit_vector);
    let shift: u64 = (60 - 4 * i) as u64;
    assert((n >> shift) & 0xf < 16) by (bit_vector);
}

/// Different digits have different characters.
proof fn lemma_upper_digit_injective(a: u8, b: u8)
    requires
        a < 16,
        b < 16,
        upper_hex_digit(a) == upper_hex_digit(b),
    ensures
        a == b,
{
}

/// Different bytes are written differently, with two digits each, none of them a lower-case
/// letter or anything but a digit.
pub proof fn upper_hex_injective(a: Seq<u8>, b: Seq<u8>)
    ensures
        upper_hex(a) == upper_hex(b) ==> a == b,
        upper_hex(a).len() == 2 * a.len(),
        forall|i: int|
            0 <= i < upper_hex(a).len() ==> '0' <= (#[trigger] upper_hex(a)[i]) && upper_hex(a)[i]
                <= '9' || 'A' <= upper_hex(a)[i] && upper_hex(a)[i] <= 'F',
{
    if upper_hex(a) == upper_hex(b) {
        assert(upper_hex(a).len() == 2 * a.len() && upper_hex(b).len() == 2 * b.len());
        assert forall|i: int| 0 <= i < a.len() implies a[i] == b[i] by {
            assert((2 * i) / 2 == i && (2 * i) % 2 == 0);
            assert((2 * i + 1) / 2 == i && (2 * i + 1) % 2 == 1);
            assert(upper_hex(a)[2 * i] == upper_hex(b)[2 * i]);
            assert(upper_hex(a)[2 * i + 1] == upper_hex(b)[2 * i + 1]);
            lemma_upper_digit_injective(a[i] / 16, b[i] / 16);
            lemma_upper_digit_injective(a[i] % 16, b[i] % 16);
        }
        assert(a =~= b);
    }
}

/// A number in decimal is made of its digits: the last is what is left when it is divided by
/// ten, and those before write what comes out.
pub proof fn decimal_is_made_of_digits(n: nat, d: nat)
    requires
        d < 10,
    ensures
        n > 0 ==> decimal(n * 10 + d) == decimal(n).push(decimal_digit(d)),
        decimal(d) == seq![decimal_digit(d)],
        decimal_digit(d) as u32 == '0' as u32 + d,
{
    if n > 0 {
        assert((n * 10 + d) / 10 == n && (n * 10 + d) % 10 == d);
    }
}

/// A text is taken as it is, whichever form it is handed over in.
pub proof fn texts_are_taken_as_they_are(owned: String, borrowed: &str, shared: &String)
    ensures
        owned.text() == owned@,
        borrowed.text() == borrowed@,
        shared.text() == shared@,
{
}

} // verus!
