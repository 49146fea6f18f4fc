//! Names and paths: comparing texts, the name of a sprite file, and where a
//! spritesheet is looked for.

use crate::outside::push_char;
use vstd::prelude::*;
use vstd::string::{StrSliceExecFns, StringExecFns};
use vstd::utf8::encode_utf8;

verus! {

/// Whether two texts are the same.
pub fn same_text(a: &str, b: &str) -> (same: bool)
    ensures
        same == (a@ == b@),
{
    let left: &[u8] = a.as_bytes();
    let right: &[u8] = b.as_bytes();
    proof {
        vstd::utf8::encode_utf8_decode_utf8(a@);
        vstd::utf8::encode_utf8_decode_utf8(b@);
    }
    if left.len() != right.len() {
        return false;
    }
    let mut i: usize = 0;
    while i < left.len()
        invariant
            i <= left.len(),
            left@.len() == right@.len(),
            left@ == encode_utf8(a@),
            right@ == encode_utf8(b@),
            forall|j: int| 0 <= j < i ==> left@[j] == right@[j],
        decreases left.len() - i,
    {
        if left[i] != right[i] {
            return false;
        }
        i += 1;
    }
    assert(left@ =~= right@);
    true
}

/// The character of a decimal digit.
pub open spec fn digit_char(digit: nat) -> char {
    ((48 + digit) as u8) as char
}

/// The decimal digits of `n`, with zeros in front where there are fewer
/// than `width`.
pub open spec fn padded_decimal(n: nat, width: nat) -> Seq<char>
    decreases n + width,
{
    if n < 10 && width <= 1 {
        seq![digit_char(n)]
    } else {
        let narrower = if width > 0 {
            (width - 1) as nat
        } else {
            0
        };
        padded_decimal(n / 10, narrower).push(digit_char(n % 10))
    }
}

/// The extension of a sprite file.
pub open spec fn sprite_extension() -> Seq<char> {
    seq!['.', 's', 'p', 'r']
}

/// The name of the file that holds the sprite `sprite_id`: the identifier in
/// decimal, filled up with zeros to five digits, and the extension.
pub open spec fn sprite_file_name_of(sprite_id: u32) -> Seq<char> {
    padded_decimal(sprite_id as nat, 5) + sprite_extension()
}

/// Digits that were collected lowest first, as the text that they make.
spec fn digits_text(lowest_first: Seq<u8>) -> Seq<char> {
    Seq::new(
        lowest_first.len(),
        |i: int| digit_char(lowest_first[lowest_first.len() - 1 - i] as nat),
    )
}

/// The name of the file that holds the sprite `sprite_id`.
pub fn sprite_file_name(sprite_id: u32) -> (name: String)
    ensures
        name@ == sprite_file_name_of(sprite_id),
{
    let mut rest: u32 = sprite_id;
    let mut width: u32 = 5;
    let mut digits: Vec<u8> = Vec::new();
    assert(padded_decimal(rest as nat, width as nat) + digits_text(digits@) =~= padded_decimal(
        sprite_id as nat,
        5,
    ));
    while !(rest < 10 && width <= 1)
        invariant
            width <= 5,
            forall|i: int| 0 <= i < digits@.len() ==> digits@[i] < 10,
            padded_decimal(sprite_id as nat, 5) == padded_decimal(rest as nat, width as nat)
                + digits_text(digits@),
        decreases rest + width,
    {
        let digit: u8 = (rest % 10) as u8;
        let ghost before = digits@;
        digits.push(digit);
        assert(digits_text(digits@) =~= seq![digit_char(digit as nat)] + digits_text(before));
        assert(padded_decimal(rest as nat, width as nat) + digits_text(before) =~= padded_decimal(
            (rest / 10) as nat,
            if width > 0 {
                (width - 1) as nat
            } else {
                0
            },
        ) + digits_text(digits@));
        rest = rest / 10;
        if width > 0 {
            width = width - 1;
        }
    }
    let ghost before = digits@;
    digits.push(rest as u8);
    assert(digits_text(digits@) =~= padded_decimal(rest as nat, width as nat) + digits_text(
        before,
    ));
    let mut name: String = String::new();
    let mut left: usize = digits.len();
    while left > 0
        invariant
            left <= digits@.len(),
            forall|i: int| 0 <= i < digits@.len() ==> digits@[i] < 10,
            name@ == digits_text(digits@).subrange(0, digits@.len() - left),
        decreases left,
    {
        left = left - 1;
        let ghost so_far = name@;
        push_char(&mut name, (48u8 + digits[left]) as char);
        assert(name@ =~= digits_text(digits@).subrange(0, digits@.len() - left));
    }
    assert(name@ =~= digits_text(digits@));
    let ghost number = name@;
    push_char(&mut name, '.');
    push_char(&mut name, 's');
    push_char(&mut name, 'p');
    push_char(&mut name, 'r');
    assert(name@ =~= number + sprite_extension());
    name
}

/// The path of `relative` below the directory `base`. One `/` is put between
/// the two where `base` does not end in one; an empty `base` adds nothing, and
/// a `relative` that starts at the root stands alone.
pub open spec fn joined_path(base: Seq<char>, relative: Seq<char>) -> Seq<char> {
    if relative.len() > 0 && relative[0] == '/' {
        relative
    } else if base.len() == 0 {
        relative
    } else if base.last() == '/' {
        base + relative
    } else {
        base + seq!['/'] + relative
    }
}

/// The path of `relative` below the directory `base`.
pub fn join_path(base: &str, relative: &str) -> (path: String)
    ensures
        path@ == joined_path(base@, relative@),
{
    let base_length: usize = base.unicode_len();
    if relative.unicode_len() > 0 && relative.get_char(0) == '/' {
        return String::from_str(relative);
    }
    if base_length == 0 {
        return String::from_str(relative);
    }
    let mut path: String = String::from_str(base);
    if base.get_char(base_length - 1) != '/' {
        push_char(&mut path, '/');
    }
    path.append(relative);
    path
}

/// The start of the path of a spritesheet that lies below the base directory.
pub open spec fn asset_root() -> Seq<char> {
    seq!['a', 's', 's', 'e', 't', 's', '/']
}

/// Whether the path of a spritesheet is one that is looked for below the base
/// directory: it starts with `assets/`.
pub open spec fn is_asset_path(path: Seq<char>) -> bool {
    path.len() >= 7 && path.subrange(0, 7) == asset_root()
}

/// Where a spritesheet is looked for: below the base directory where its path
/// starts with `assets/`, and at the path as it is given otherwise.
pub open spec fn resolved_path(base: Seq<char>, spritesheet: Seq<char>) -> Seq<char> {
    if is_asset_path(spritesheet) {
        joined_path(base, spritesheet)
    } else {
        spritesheet
    }
}

/// Whether `path` starts with `assets/`.
pub fn starts_with_asset_root(path: &str) -> (found: bool)
    ensures
        found == is_asset_path(path@),
{
    if path.unicode_len() < 7 {
        return false;
    }
    let found: bool = path.get_char(0) == 'a' && path.get_char(1) == 's' && path.get_char(2) == 's'
        && path.get_char(3) == 'e' && path.get_char(4) == 't' && path.get_char(5) == 's'
        && path.get_char(6) == '/';
    proof {
        let head = path@.subrange(0, 7);
        if found {
            assert(head =~= asset_root());
        } else {
            assert(head[0] == path@[0] && head[1] == path@[1] && head[2] == path@[2] && head[3]
                == path@[3] && head[4] == path@[4] && head[5] == path@[5] && head[6] == path@[6]);
        }
    }
    found
}

/// Where the spritesheet of a frame group is looked for.
pub fn resolve_spritesheet_path(base_path: &str, spritesheet: &str) -> (path: String)
    ensures
        path@ == resolved_path(base_path@, spritesheet@),
{
    if starts_with_asset_root(spritesheet) {
        join_path(base_path, spritesheet)
    } else {
        String::from_str(spritesheet)
    }
}

} // verus!
