//! Bytes as hexadecimal text.

use crate::number;
use crate::text;
use vstd::prelude::*;

verus! {

/// The hexadecimal digit of the value `d` below sixteen, in upper case.
pub open spec fn hex_digit(d: int) -> char {
    if d < 10 {
        (d + '0' as int) as char
    } else {
        (d - 10 + 'A' as int) as char
    }
}

/// The two digits of a byte.
pub open spec fn hex_pair(b: u8) -> Seq<char> {
    seq![hex_digit(b as int / 16), hex_digit(b as int % 16)]
}

/// The bytes in hexadecimal, each followed by a space.
pub open spec fn hex_dump(bytes: Seq<u8>) -> Seq<char>
    decreases bytes.len(),
{
    if bytes.len() == 0 {
        seq![]
    } else {
        hex_pair(bytes[0]).push(' ') + hex_dump(bytes.skip(1))
    }
}

/// The bytes that `words` write in hexadecimal. A word that writes no byte is
/// passed over.
pub open spec fn hex_bytes(words: Seq<Seq<char>>) -> Seq<u8>
    decreases words.len(),
{
    if words.len() == 0 {
        seq![]
    } else {
        match number::hex_byte(words[0]) {
            Some(b) => seq![b] + hex_bytes(words.skip(1)),
            None => hex_bytes(words.skip(1)),
        }
    }
}

/// The bytes that a command line writes behind its first word.
pub open spec fn hex_arg(command_line: Seq<char>) -> Seq<u8> {
    hex_bytes(text::pieces(command_line, ' ').skip(1))
}

/// Appends the hexadecimal digit of the value `d` to `out`.
fn push_digit(out: &mut String, d: u8)
    requires
        d < 16,
    ensures
        final(out)@ == old(out)@.push(hex_digit(d as int)),
{
    if d < 10 {
        out.push((d + 48) as char);
    } else {
        out.push((d + 55) as char);
    }
}

/// The bytes in hexadecimal, each followed by a space.
pub fn dump_hex(uv: Vec<u8>) -> (r: String)
    ensures
        r@ == hex_dump(uv@),
{
    let mut cv = String::new();
    let mut i: usize = 0;
    assert(uv@.skip(0) == uv@);
    while i < uv.len()
        invariant
            i <= uv@.len(),
            hex_dump(uv@) == cv@ + hex_dump(uv@.skip(i as int)),
        decreases uv@.len() - i,
    {
        let u = uv[i];
        let ghost before = cv@;
        push_digit(&mut cv, u / 16);
        push_digit(&mut cv, u % 16);
        cv.push(' ');
        assert(uv@.skip(i as int).skip(1) == uv@.skip(i + 1));
        assert(cv@ == before + hex_pair(u).push(' '));
        i += 1;
    }
    assert(cv@ + hex_dump(uv@.skip(i as int)) == cv@);
    cv
}

/// The bytes that a command line writes in hexadecimal behind its first word,
/// with spaces between them.
pub fn hex2u8(hex: &str) -> (r: Vec<u8>)
    ensures
        r@ == hex_arg(hex@),
{
    let chars = text::to_chars(hex);
    let tokens = text::split(chars.as_slice(), ' ');
    let ghost words = text::pieces(hex@, ' ');
    let mut hex_vec: Vec<u8> = Vec::new();
    let mut i: usize = 1;
    while i < tokens.len()
        invariant
            1 <= i <= tokens@.len(),
            text::slices_hold(tokens@, words),
            hex_bytes(words.skip(1)) == hex_vec@ + hex_bytes(words.skip(i as int)),
        decreases tokens@.len() - i,
    {
        assert(words.skip(i as int)[0] == words[i as int]);
        assert(words.skip(i as int).skip(1) == words.skip(i + 1));
        if let Some(val) = number::parse_hex_u8(tokens[i]) {
            hex_vec.push(val);
        }
        i += 1;
    }
    assert(hex_vec@ + hex_bytes(words.skip(i as int)) == hex_vec@);
    hex_vec
}

/// The two digits of a byte write that byte.
proof fn lemma_hex_pair(b: u8)
    ensures
        number::hex_byte(hex_pair(b)) == Some(b),
        !hex_pair(b).contains(' '),
{
    let s = hex_pair(b);
    reveal_with_fuel(number::digits_value, 3);
    assert(s.drop_last().drop_last() =~= Seq::<char>::empty());
    assert(s.drop_last().last() == s[0]);
    assert(s[0] != '+');
}

/// The words of a dump write the bytes that were dumped.
proof fn lemma_dump_reads_back(bytes: Seq<u8>)
    ensures
        hex_bytes(text::pieces(hex_dump(bytes), ' ')) == bytes,
    decreases bytes.len(),
{
    let s = hex_dump(bytes);
    if bytes.len() == 0 {
        reveal_with_fuel(hex_bytes, 2);
        text::lemma_pieces(s, ' ', s);
        assert(text::pieces(s, ' ').skip(1) =~= Seq::<Seq<char>>::empty());
        assert(hex_bytes(text::pieces(s, ' ')) =~= bytes);
    } else {
        let rest = hex_dump(bytes.skip(1));
        lemma_hex_pair(bytes[0]);
        lemma_dump_reads_back(bytes.skip(1));
        text::lemma_pieces(hex_pair(bytes[0]), ' ', rest);
        assert(text::pieces(s, ' ').skip(1) =~= text::pieces(rest, ' '));
        assert(seq![bytes[0]] + bytes.skip(1) =~= bytes);
    }
}

/// Bytes that were dumped can be sent back: a command that carries the dump
/// carries the bytes.
pub proof fn law_dump_reads_back(word: Seq<char>, bytes: Seq<u8>)
    requires
        !word.contains(' '),
    ensures
        hex_arg(word.push(' ') + hex_dump(bytes)) == bytes,
{
    lemma_dump_reads_back(bytes);
    text::lemma_pieces(word, ' ', hex_dump(bytes));
    let dumped = text::pieces(hex_dump(bytes), ' ');
    assert((seq![word] + dumped).skip(1) =~= dumped);
}

/// The words of a command are read one by one: a word more is a byte more, if it
/// writes one. The first word is the command and writes none.
pub proof fn law_words_are_read_in_turn(s: Seq<char>, word: Seq<char>)
    requires
        !word.contains(' '),
    ensures
        hex_arg(word) == Seq::<u8>::empty(),
        hex_arg(s + seq![' '] + word) == (match number::hex_byte(word) {
            Some(b) => hex_arg(s).push(b),
            None => hex_arg(s),
        }),
{
    text::law_last_piece(s, ' ', word);
    assert(text::pieces(word, ' ').skip(1) =~= Seq::<Seq<char>>::empty());
    let words = text::pieces(s, ' ');
    assert(words.push(word).skip(1) =~= words.skip(1).push(word));
    lemma_hex_bytes_push(words.skip(1), word);
}

/// The last word counts as the others do.
proof fn lemma_hex_bytes_push(words: Seq<Seq<char>>, word: Seq<char>)
    ensures
        hex_bytes(words.push(word)) == (match number::hex_byte(word) {
            Some(b) => hex_bytes(words).push(b),
            None => hex_bytes(words),
        }),
    decreases words.len(),
{
    let all = words.push(word);
    if words.len() > 0 {
        lemma_hex_bytes_push(words.skip(1), word);
        assert(all.skip(1) =~= words.skip(1).push(word));
        assert(all[0] == words[0]);
        match number::hex_byte(word) {
            Some(b) => {
                match number::hex_byte(words[0]) {
                    Some(a) => {
                        assert(seq![a] + hex_bytes(words.skip(1)).push(b) =~= (seq![a] + hex_bytes(
                            words.skip(1),
                        )).push(b));
                    },
                    None => {},
                }
            },
            None => {},
        }
    } else {
        assert(all.skip(1) =~= words);
        assert(hex_bytes(words) =~= Seq::<u8>::empty());
        match number::hex_byte(word) {
            Some(b) => {
                assert(seq![b] + hex_bytes(words) =~= hex_bytes(words).push(b));
            },
            None => {},
        }
    }
}

/// A dump is made byte by byte: two digits in upper case, the higher first, and a
/// space.
pub proof fn law_bytes_are_dumped_in_turn(bytes: Seq<u8>, b: u8)
    ensures
        hex_dump(seq![]) == Seq::<char>::empty(),
        hex_dump(bytes.push(b)) == hex_dump(bytes) + hex_dump(seq![b]),
        ({
            let pair = hex_dump(seq![b]);
            let high = pair[0];
            let low = pair[1];
            &&& pair.len() == 3
            &&& '0' <= high <= '9' && high as int - 48 == b / 16 || 'A' <= high <= 'F' && high
                as int - 55 == b / 16
            &&& '0' <= low <= '9' && low as int - 48 == b % 16 || 'A' <= low <= 'F' && low as int
                - 55 == b % 16
            &&& pair[2] == ' '
        }),
    decreases bytes.len(),
{
    let one = seq![b];
    assert(one.skip(1) =~= Seq::<u8>::empty());
    assert(hex_dump(one.skip(1)) =~= Seq::<char>::empty());
    assert(hex_dump(one) =~= hex_pair(b).push(' '));
    let all = bytes.push(b);
    if bytes.len() > 0 {
        law_bytes_are_dumped_in_turn(bytes.skip(1), b);
        assert(all.skip(1) =~= bytes.skip(1).push(b));
        assert(all[0] == bytes[0]);
        assert(hex_dump(all) =~= hex_dump(bytes) + hex_dump(one));
    } else {
        assert(all =~= one);
        assert(hex_dump(all) =~= hex_dump(bytes) + hex_dump(one));
    }
}

} // verus!
