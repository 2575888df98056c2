//! Escaping of raw path bytes into a URL-safe fragment.
use vstd::prelude::*;
use crate::text::push_char;

verus! {

/// Bytes that stand for themselves in a fragment: ASCII letters, digits,
/// `_`, `.`, `-`, `~` and `/`.
pub open spec fn is_safe(b: u8) -> bool {
    (0x41 <= b <= 0x5a) || (0x61 <= b <= 0x7a) || (0x30 <= b <= 0x39) || b == 0x5f || b == 0x2e
        || b == 0x2d || b == 0x7e || b == 0x2f
}

pub open spec fn hex_chars() -> Seq<char> {
    seq!['0', '1', '2', '3', '4', '5', '6', '7', '8', '9', 'A', 'B', 'C', 'D', 'E', 'F']
}

/// How one byte is written: itself when safe, else `%` and two upper-case
/// hex digits.
pub open spec fn escape_byte(b: u8) -> Seq<char> {
    if is_safe(b) {
        seq![b as char]
    } else {
        seq!['%', hex_chars()[(b / 16) as int], hex_chars()[(b % 16) as int]]
    }
}

pub open spec fn escaped(bs: Seq<u8>) -> Seq<char>
    decreases bs.len(),
{
    if bs.len() == 0 {
        Seq::empty()
    } else {
        escaped(bs.drop_last()) + escape_byte(bs.last())
    }
}

fn hex_digit(n: u8) -> (r: char)
    requires
        n < 16,
    ensures
        r == hex_chars()[n as int],
{
    let table: [char; 16] = [
        '0', '1', '2', '3', '4', '5', '6', '7', '8', '9', 'A', 'B', 'C', 'D', 'E', 'F',
    ];
    assert(table@ =~= hex_chars());
    table[n as usize]
}

fn byte_is_safe(b: u8) -> (r: bool)
    ensures
        r == is_safe(b),
{
    (0x41 <= b && b <= 0x5a) || (0x61 <= b && b <= 0x7a) || (0x30 <= b && b <= 0x39) || b == 0x5f
        || b == 0x2e || b == 0x2d || b == 0x7e || b == 0x2f
}

/// Escapes raw path bytes (a symlink's target, say) into a fragment that
/// can stand in a URL.
pub fn escape(bs: &[u8]) -> (r: String)
    ensures
        r@ == escaped(bs@),
{
    let mut r = String::new();
    let mut i: usize = 0;
    while i < bs.len()
        invariant
            i <= bs.len(),
            r@ == escaped(bs@.take(i as int)),
        decreases bs.len() - i,
    {
        let b = bs[i];
        if byte_is_safe(b) {
            push_char(&mut r, b as char);
        } else {
            push_char(&mut r, '%');
            push_char(&mut r, hex_digit(b / 16));
            push_char(&mut r, hex_digit(b % 16));
        }
        assert(bs@.take(i + 1).drop_last() =~= bs@.take(i as int));
        assert(r@ =~= escaped(bs@.take(i + 1)));
        i = i + 1;
    }
    assert(bs@.take(bs.len() as int) =~= bs@);
    r
}

/// A fragment made of safe bytes escapes to itself: reading back a link
/// whose target is such a fragment gives the fragment unchanged.
pub proof fn lemma_escape_safe_identity(bs: Seq<u8>)
    requires
        forall|i: int| 0 <= i < bs.len() ==> is_safe(#[trigger] bs[i]),
    ensures
        escaped(bs) == bs.map_values(|b: u8| b as char),
    decreases bs.len(),
{
    if bs.len() > 0 {
        lemma_escape_safe_identity(bs.drop_last());
        assert(is_safe(bs[bs.len() - 1]));
        assert(bs.map_values(|b: u8| b as char) =~= bs.drop_last().map_values(|b: u8| b as char)
            + seq![bs.last() as char]);
    } else {
        assert(bs.map_values(|b: u8| b as char) =~= Seq::<char>::empty());
    }
}

} // verus!
