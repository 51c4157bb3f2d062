//! The display symbol of a pair.

use crate::asset::{canonical_pair, AssetId};
use vstd::prelude::*;

verus! {

/// The lower-case hexadecimal digit of a value below 16.
pub open spec fn hex_digit(n: int) -> char {
    if n == 0 {
        '0'
    } else if n == 1 {
        '1'
    } else if n == 2 {
        '2'
    } else if n == 3 {
        '3'
    } else if n == 4 {
        '4'
    } else if n == 5 {
        '5'
    } else if n == 6 {
        '6'
    } else if n == 7 {
        '7'
    } else if n == 8 {
        '8'
    } else if n == 9 {
        '9'
    } else if n == 10 {
        'a'
    } else if n == 11 {
        'b'
    } else if n == 12 {
        'c'
    } else if n == 13 {
        'd'
    } else if n == 14 {
        'e'
    } else {
        'f'
    }
}

/// A byte string in hexadecimal: two digits for each byte, the high one first.
pub open spec fn hex_text(bytes: Seq<u8>) -> Seq<char>
    decreases bytes.len(),
{
    if bytes.len() == 0 {
        Seq::empty()
    } else {
        hex_text(bytes.drop_last()).push(hex_digit(bytes.last() as int / 16)).push(
            hex_digit(bytes.last() as int % 16),
        )
    }
}

/// How an asset is shown: by its registered symbol where it has one, else by
/// its identifier in hexadecimal.
pub open spec fn symbol_or_id(asset: Seq<u8>, symbol: Option<Seq<char>>) -> Seq<char> {
    match symbol {
        Some(s) => s,
        None => hex_text(asset),
    }
}

/// The symbol of a pair: how its two assets are shown, in canonical order,
/// with a hyphen between them.
pub open spec fn pair_symbol_text(
    address0: Seq<u8>,
    address1: Seq<u8>,
    symbol0: Option<Seq<char>>,
    symbol1: Option<Seq<char>>,
) -> Seq<char> {
    if canonical_pair(address0, address1).0 == address0 {
        symbol_or_id(address0, symbol0) + seq!['-'] + symbol_or_id(address1, symbol1)
    } else {
        symbol_or_id(address1, symbol1) + seq!['-'] + symbol_or_id(address0, symbol0)
    }
}

/// What a symbol that may be missing reads.
pub open spec fn text_of(symbol: Option<String>) -> Option<Seq<char>> {
    match symbol {
        Some(s) => Some(s@),
        None => None,
    }
}

/// The digit of a value below 16, as text.
fn digit_text(n: u8) -> (r: &'static str)
    requires
        n < 16,
    ensures
        r@ == seq![hex_digit(n as int)],
{
    let digits: [&'static str; 16] = [
        "0",
        "1",
        "2",
        "3",
        "4",
        "5",
        "6",
        "7",
        "8",
        "9",
        "a",
        "b",
        "c",
        "d",
        "e",
        "f",
    ];
    proof {
        reveal_strlit("0");
        reveal_strlit("1");
        reveal_strlit("2");
        reveal_strlit("3");
        reveal_strlit("4");
        reveal_strlit("5");
        reveal_strlit("6");
        reveal_strlit("7");
        reveal_strlit("8");
        reveal_strlit("9");
        reveal_strlit("a");
        reveal_strlit("b");
        reveal_strlit("c");
        reveal_strlit("d");
        reveal_strlit("e");
        reveal_strlit("f");
    }
    let r = digits[n as usize];
    assert(r@ =~= seq![hex_digit(n as int)]);
    r
}

/// An identifier in hexadecimal.
pub fn id_text(asset: &AssetId) -> (r: String)
    ensures
        r@ == hex_text(asset@),
{
    let mut text = String::new();
    let mut i: usize = 0;
    while i < asset.bytes.len()
        invariant
            i <= asset.bytes@.len(),
            text@ == hex_text(asset.bytes@.take(i as int)),
        decreases asset.bytes@.len() - i,
    {
        let byte = asset.bytes[i];
        text.append(digit_text(byte / 16));
        text.append(digit_text(byte % 16));
        proof {
            let grown = asset.bytes@.take(i + 1);
            assert(grown.drop_last() =~= asset.bytes@.take(i as int));
            assert(grown.last() == byte);
            assert(text@ =~= hex_text(grown));
        }
        i += 1;
    }
    proof {
        assert(asset.bytes@.take(i as int) =~= asset.bytes@);
    }
    text
}

/// The symbol of the pair of two assets, from their identifiers and what the
/// asset registry holds as the display symbol of each, if anything.
pub fn pair_symbol(
    address0: AssetId,
    address1: AssetId,
    symbol0: Option<String>,
    symbol1: Option<String>,
) -> (r: String)
    ensures
        r@ == pair_symbol_text(address0@, address1@, text_of(symbol0), text_of(symbol1)),
{
    let name0 = match symbol0 {
        Some(s) => s,
        None => id_text(&address0),
    };
    let name1 = match symbol1 {
        Some(s) => s,
        None => id_text(&address1),
    };
    let swapped = !address0.comes_before(&address1) && !address0.same_as(&address1);
    let mut text = String::new();
    proof {
        reveal_strlit("-");
        crate::asset::lemma_bytes_order_total(address0@, address1@);
    }
    if swapped {
        text.append(name1.as_str());
        text.append("-");
        text.append(name0.as_str());
    } else {
        text.append(name0.as_str());
        text.append("-");
        text.append(name1.as_str());
    }
    assert(text@ =~= pair_symbol_text(address0@, address1@, text_of(symbol0), text_of(symbol1)));
    text
}

} // verus!
