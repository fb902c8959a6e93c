//! IPv4 addresses in dotted decimal notation.

use vstd::prelude::*;

use crate::decimal::{
    is_digit, lemma_digit_run, lemma_numeral_digits, lemma_numeral_unique, lemma_numeral_value,
    lemma_run_is_digits, numeral, parse_uint, push_numeral, value,
};
use crate::text::{
    chars_of, join, law_join_then_split, law_split_then_join, split, split_text, views,
};

verus! {

/// An IPv4 address, by its four octets.
#[derive(Debug, Clone, Copy, PartialEq, Eq, Structural)]
pub struct Ipv4Addr {
    pub a: u8,
    pub b: u8,
    pub c: u8,
    pub d: u8,
}

/// The octet that `s` stands for: one to three digits, without a superfluous zero in front.
pub open spec fn octet_of(s: Seq<char>) -> Option<u8> {
    if 1 <= s.len() <= 3 && (forall|i: int| 0 <= i < s.len() ==> is_digit(#[trigger] s[i])) && (
    s.len() > 1 ==> s[0] != '0') && value(s) <= 255 {
        Some(value(s) as u8)
    } else {
        None
    }
}

/// The address that `s` stands for: four octets with dots between them.
pub open spec fn ipv4_of(s: Seq<char>) -> Option<Ipv4Addr> {
    let parts = split(s, '.');
    if parts.len() != 4 {
        None
    } else {
        match (octet_of(parts[0]), octet_of(parts[1]), octet_of(parts[2]), octet_of(parts[3])) {
            (Some(a), Some(b), Some(c), Some(d)) => Some(Ipv4Addr { a, b, c, d }),
            _ => None,
        }
    }
}

/// An address in dotted decimal notation.
pub open spec fn ipv4_text(adr: Ipv4Addr) -> Seq<char> {
    join(
        seq![
            numeral(adr.a as nat),
            numeral(adr.b as nat),
            numeral(adr.c as nat),
            numeral(adr.d as nat),
        ],
        '.',
    )
}

/// Reads an octet.
fn parse_octet(s: &str) -> (res: Option<u8>)
    ensures
        res == octet_of(s@),
{
    let chars = chars_of(s);
    let len: usize = chars.len();
    if len == 0 || len > 3 || chars[0] == '+' || (len > 1 && chars[0] == '0') {
        assert(s@.len() > 0 && s@[0] == '+' ==> !is_digit(s@[0]));
        return None;
    }
    proof {
        lemma_run_is_digits(s@);
        if forall|i: int| 0 <= i < s@.len() ==> is_digit(#[trigger] s@[i]) {
            lemma_digit_run(s@, s@.len());
        }
        assert(s@.take(s@.len() as int) == s@);
    }
    match parse_uint(s, 255) {
        Ok(n) => Some(n as u8),
        Err(_) => None,
    }
}

/// Reads an address in dotted decimal notation.
pub fn parse_ipv4(s: &str) -> (res: Option<Ipv4Addr>)
    ensures
        res == ipv4_of(s@),
{
    let parts = split_text(s, '.');
    assert(views(parts@).len() == parts@.len());
    if parts.len() != 4 {
        return None;
    }
    assert(forall|i: int| 0 <= i < 4 ==> #[trigger] views(parts@)[i] == parts@[i]@);
    match (
        parse_octet(parts[0]),
        parse_octet(parts[1]),
        parse_octet(parts[2]),
        parse_octet(parts[3]),
    ) {
        (Some(a), Some(b), Some(c), Some(d)) => Some(Ipv4Addr { a, b, c, d }),
        _ => None,
    }
}

/// Appends an address in dotted decimal notation to `out`.
pub fn push_ipv4(out: &mut String, adr: Ipv4Addr)
    ensures
        final(out)@ == old(out)@ + ipv4_text(adr),
{
    push_numeral(out, adr.a as u128);
    out.append(".");
    push_numeral(out, adr.b as u128);
    out.append(".");
    push_numeral(out, adr.c as u128);
    out.append(".");
    push_numeral(out, adr.d as u128);
    proof {
        reveal_strlit(".");
        assert("."@ == seq!['.']);
        lemma_ipv4_text(adr);
    }
}

/// The dotted decimal notation, piece by piece.
proof fn lemma_ipv4_text(adr: Ipv4Addr)
    ensures
        ipv4_text(adr) == numeral(adr.a as nat) + seq!['.'] + numeral(adr.b as nat) + seq!['.']
            + numeral(adr.c as nat) + seq!['.'] + numeral(adr.d as nat),
{
    let (a, b, c, d) = (
        numeral(adr.a as nat),
        numeral(adr.b as nat),
        numeral(adr.c as nat),
        numeral(adr.d as nat),
    );
    assert(seq![a, b, c, d].drop_last() == seq![a, b, c]);
    assert(seq![a, b, c].drop_last() == seq![a, b]);
    assert(seq![a, b].drop_last() == seq![a]);
    reveal_with_fuel(join, 4);
}

/// The numeral of an octet is read as that octet, and holds no dot.
proof fn lemma_octet_numeral(n: u8)
    ensures
        octet_of(numeral(n as nat)) == Some(n),
        forall|c: char| #[trigger] numeral(n as nat).contains(c) ==> is_digit(c),
{
    lemma_numeral_digits(n as nat);
    lemma_numeral_value(n as nat);
    reveal_with_fuel(numeral, 3);
}

/// The dotted decimal notation is made of digits and dots.
pub proof fn lemma_ipv4_text_chars(adr: Ipv4Addr)
    ensures
        forall|c: char| #[trigger] ipv4_text(adr).contains(c) ==> is_digit(c) || c == '.',
{
    lemma_ipv4_text(adr);
    lemma_numeral_digits(adr.a as nat);
    lemma_numeral_digits(adr.b as nat);
    lemma_numeral_digits(adr.c as nat);
    lemma_numeral_digits(adr.d as nat);
}

/// An address that is written down is read back.
pub proof fn law_ipv4_read_back(adr: Ipv4Addr)
    ensures
        ipv4_of(ipv4_text(adr)) == Some(adr),
{
    let parts = seq![
        numeral(adr.a as nat),
        numeral(adr.b as nat),
        numeral(adr.c as nat),
        numeral(adr.d as nat),
    ];
    lemma_octet_numeral(adr.a);
    lemma_octet_numeral(adr.b);
    lemma_octet_numeral(adr.c);
    lemma_octet_numeral(adr.d);
    law_join_then_split(parts, '.');
}

/// An address has one notation only: the text that it is read from is the one that it is
/// written as.
pub proof fn law_ipv4_notation_unique(s: Seq<char>, adr: Ipv4Addr)
    requires
        ipv4_of(s) == Some(adr),
    ensures
        s == ipv4_text(adr),
{
    let parts = split(s, '.');
    lemma_numeral_unique(parts[0]);
    lemma_numeral_unique(parts[1]);
    lemma_numeral_unique(parts[2]);
    lemma_numeral_unique(parts[3]);
    law_split_then_join(s, '.');
    assert(parts == seq![parts[0], parts[1], parts[2], parts[3]]);
}

/// Which texts are octets: the numerals of the numbers up to 255, each of that number.
pub proof fn law_octet_read(s: Seq<char>, n: u8)
    ensures
        octet_of(s) == Some(n) <==> s == numeral(n as nat),
{
    if octet_of(s) == Some(n) {
        lemma_numeral_unique(s);
    }
    lemma_octet_numeral(n);
}

/// The dotted decimal notation is the numerals of the four octets, from the first to the last,
/// with a dot between each two.
pub proof fn law_ipv4_text_dotted(adr: Ipv4Addr)
    ensures
        ipv4_text(adr) == numeral(adr.a as nat) + seq!['.'] + numeral(adr.b as nat) + seq!['.']
            + numeral(adr.c as nat) + seq!['.'] + numeral(adr.d as nat),
{
    lemma_ipv4_text(adr);
}

/// Which texts are addresses: those that an address is written as, each of that address. No
/// other text is read as an address at all.
pub proof fn law_ipv4_read(s: Seq<char>, adr: Ipv4Addr)
    ensures
        ipv4_of(s) == Some(adr) <==> s == numeral(adr.a as nat) + seq!['.'] + numeral(adr.b as nat)
            + seq!['.'] + numeral(adr.c as nat) + seq!['.'] + numeral(adr.d as nat),
{
    lemma_ipv4_text(adr);
    if ipv4_of(s) == Some(adr) {
        law_ipv4_notation_unique(s, adr);
    }
    law_ipv4_read_back(adr);
}

} // verus!
