//! Rendering of the synthesized names the library hands out: block-local
//! temporary variables and user-declared function entries.

use vstd::prelude::*;

verus! {

/// The decimal digit character for `d`, which must lie in `0..10`.
pub open spec fn dec_digit(d: nat) -> char {
    if d == 0 {
        '0'
    } else if d == 1 {
        '1'
    } else if d == 2 {
        '2'
    } else if d == 3 {
        '3'
    } else if d == 4 {
        '4'
    } else if d == 5 {
        '5'
    } else if d == 6 {
        '6'
    } else if d == 7 {
        '7'
    } else if d == 8 {
        '8'
    } else {
        '9'
    }
}

/// The lowercase hexadecimal digit character for `d`, which must lie in
/// `0..16`.
pub open spec fn hex_digit(d: nat) -> char {
    if d < 10 {
        dec_digit(d)
    } else if d == 10 {
        'a'
    } else if d == 11 {
        'b'
    } else if d == 12 {
        'c'
    } else if d == 13 {
        'd'
    } else if d == 14 {
        'e'
    } else {
        'f'
    }
}

/// The decimal rendering of `n`, most significant digit first, without
/// leading zeroes.
pub open spec fn dec_rep(n: nat) -> Seq<char>
    decreases n,
{
    if n < 10 {
        seq![dec_digit(n)]
    } else {
        dec_rep(n / 10).push(dec_digit(n % 10))
    }
}

/// The lowercase hexadecimal rendering of `n`, most significant digit first,
/// without leading zeroes.
pub open spec fn hex_rep(n: nat) -> Seq<char>
    decreases n,
{
    if n < 16 {
        seq![hex_digit(n)]
    } else {
        hex_rep(n / 16).push(hex_digit(n % 16))
    }
}

/// The name of the temporary scalar numbered `temp_index` in the block
/// numbered `block_index`.
pub open spec fn temp_name_chars(block_index: u64, temp_index: u64) -> Seq<char> {
    seq!['t', 'e', 'm', 'p', '_'] + dec_rep(block_index as nat) + seq!['.'] + dec_rep(
        temp_index as nat,
    )
}

/// The synthesized name of a user-declared function entry at the
/// file-relative address `address`.
pub open spec fn user_function_name_chars(address: u64) -> Seq<char> {
    seq!['u', 's', 'e', 'r', '_', 'f', 'u', 'n', 'c', 't', 'i', 'o', 'n', '_'] + hex_rep(
        address as nat,
    )
}

/// Relies on the standard library's decimal formatting of `u64`, which
/// renders exactly the digits `dec_rep` describes.
#[verifier::external_body]
pub fn temp_name(block_index: u64, temp_index: u64) -> (r: String)
    ensures
        r@ == temp_name_chars(block_index, temp_index),
{
    format!("temp_{}.{}", block_index, temp_index)
}

/// Relies on the standard library's lowercase hexadecimal formatting of
/// `u64`, which renders exactly the digits `hex_rep` describes.
#[verifier::external_body]
pub fn user_function_name(address: u64) -> (r: String)
    ensures
        r@ == user_function_name_chars(address),
{
    format!("user_function_{:x}", address)
}

} // verus!
