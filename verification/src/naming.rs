//! Deterministic names: identifiers written in lowercase hexadecimal, the
//! staging-area file name convention, and the remote asset URL template.

use vstd::prelude::*;
use vstd::string::StringExecFns;

verus! {

/// The digit character for one value below sixteen.
pub open spec fn hex_digit_char(d: nat) -> char
    recommends
        d < 16,
{
    if d == 0 {
        '0'
    } else if d == 1 {
        '1'
    } else if d == 2 {
        '2'
    } else if d == 3 {
        '3'
    } else if d == 4 {
        '4'
    } else if d == 5 {
        '5'
    } else if d == 6 {
        '6'
    } else if d == 7 {
        '7'
    } else if d == 8 {
        '8'
    } else if d == 9 {
        '9'
    } else if d == 10 {
        'a'
    } else if d == 11 {
        'b'
    } else if d == 12 {
        'c'
    } else if d == 13 {
        'd'
    } else if d == 14 {
        'e'
    } else {
        'f'
    }
}

/// The lowercase hexadecimal digits of `n`, most significant first, with no
/// leading zeros; zero itself is the single digit `0`.
pub open spec fn hex_chars(n: nat) -> Seq<char>
    decreases n,
{
    if n < 16 {
        seq![hex_digit_char(n)]
    } else {
        hex_chars(n / 16).push(hex_digit_char(n % 16))
    }
}

/// The decimal digits of `n`, most significant first, with no leading zeros.
pub open spec fn dec_chars(n: nat) -> Seq<char>
    decreases n,
{
    if n < 10 {
        seq![hex_digit_char(n)]
    } else {
        dec_chars(n / 10).push(hex_digit_char(n % 10))
    }
}

fn hex_digit_str(d: u32) -> (r: &'static str)
    requires
        d < 16,
    ensures
        r@ == seq![hex_digit_char(d as nat)],
{
    proof {
        reveal_strlit("0");
        reveal_strlit("1");
        reveal_strlit("2");
        reveal_strlit("3");
        reveal_strlit("4");
        reveal_strlit("5");
        reveal_strlit("6");
        reveal_strlit("7");
        reveal_strlit("8");
        reveal_strlit("9");
        reveal_strlit("a");
        reveal_strlit("b");
        reveal_strlit("c");
        reveal_strlit("d");
        reveal_strlit("e");
        reveal_strlit("f");
    }
    let r: &'static str = if d == 0 {
        "0"
    } else if d == 1 {
        "1"
    } else if d == 2 {
        "2"
    } else if d == 3 {
        "3"
    } else if d == 4 {
        "4"
    } else if d == 5 {
        "5"
    } else if d == 6 {
        "6"
    } else if d == 7 {
        "7"
    } else if d == 8 {
        "8"
    } else if d == 9 {
        "9"
    } else if d == 10 {
        "a"
    } else if d == 11 {
        "b"
    } else if d == 12 {
        "c"
    } else if d == 13 {
        "d"
    } else if d == 14 {
        "e"
    } else {
        "f"
    };
    proof {
        assert(r@ =~= seq![hex_digit_char(d as nat)]);
    }
    r
}

fn push_hex(n: u32, out: &mut String)
    ensures
        final(out)@ == old(out)@ + hex_chars(n as nat),
    decreases n,
{
    if n >= 16 {
        push_hex(n / 16, out);
    }
    out.append(hex_digit_str(n % 16));
    proof {
        assert(out@ =~= old(out)@ + hex_chars(n as nat));
    }
}

fn push_dec(n: u32, out: &mut String)
    ensures
        final(out)@ == old(out)@ + dec_chars(n as nat),
    decreases n,
{
    if n >= 10 {
        push_dec(n / 10, out);
    }
    out.append(hex_digit_str(n % 10));
    proof {
        assert(out@ =~= old(out)@ + dec_chars(n as nat));
    }
}

/// The lowercase hexadecimal form of an identifier, as both the mapping
/// file and the staged file names write it.
pub fn hex_string(n: u32) -> (r: String)
    ensures
        r@ == hex_chars(n as nat),
{
    let mut out = String::new();
    push_hex(n, &mut out);
    proof {
        assert(Seq::<char>::empty() + hex_chars(n as nat) =~= hex_chars(n as nat));
    }
    out
}

/// The decimal form of a number, as the asset URL writes the scale tier.
pub fn dec_string(n: u32) -> (r: String)
    ensures
        r@ == dec_chars(n as nat),
{
    let mut out = String::new();
    push_dec(n, &mut out);
    proof {
        assert(Seq::<char>::empty() + dec_chars(n as nat) =~= dec_chars(n as nat));
    }
    out
}

/// The canonical staging-area file name for an identifier: a fixed prefix,
/// the identifier in lowercase hexadecimal, and the image extension.
pub open spec fn staged_name_chars(id: nat) -> Seq<char> {
    "emoji_u"@ + hex_chars(id) + ".png"@
}

/// Builds the staging-area file name for one identifier.
pub fn staged_file_name(id: u32) -> (r: String)
    ensures
        r@ == staged_name_chars(id as nat),
{
    let mut out = String::from_str("emoji_u");
    push_hex(id, &mut out);
    out.append(".png");
    out
}

/// The remote asset URL for one emote image: the fixed CDN base, the
/// platform's asset identifier, the static image-type segment, the dark
/// theme segment, and the configured scale tier.
pub open spec fn asset_url_chars(asset_id: Seq<char>, scale: nat) -> Seq<char> {
    "https://static-cdn.jtvnw.net/emoticons/v2/"@ + asset_id + "/static/dark/"@ + dec_chars(scale)
        + ".0"@
}

/// Builds the asset URL for one remote emote.
pub fn asset_url(asset_id: &str, scale: u32) -> (r: String)
    ensures
        r@ == asset_url_chars(asset_id@, scale as nat),
{
    let mut out = String::from_str("https://static-cdn.jtvnw.net/emoticons/v2/");
    out.append(asset_id);
    out.append("/static/dark/");
    push_dec(scale, &mut out);
    out.append(".0");
    out
}

/// Recognizes the sixteen lowercase hexadecimal digit characters.
pub open spec fn is_hex_digit(c: char) -> bool {
    c == '0' || c == '1' || c == '2' || c == '3' || c == '4' || c == '5' || c == '6' || c == '7'
        || c == '8' || c == '9' || c == 'a' || c == 'b' || c == 'c' || c == 'd' || c == 'e'
        || c == 'f'
}

/// The value of one hexadecimal digit character.
pub open spec fn hex_digit_val(c: char) -> nat
    recommends
        is_hex_digit(c),
{
    if c == '0' {
        0
    } else if c == '1' {
        1
    } else if c == '2' {
        2
    } else if c == '3' {
        3
    } else if c == '4' {
        4
    } else if c == '5' {
        5
    } else if c == '6' {
        6
    } else if c == '7' {
        7
    } else if c == '8' {
        8
    } else if c == '9' {
        9
    } else if c == 'a' {
        10
    } else if c == 'b' {
        11
    } else if c == 'c' {
        12
    } else if c == 'd' {
        13
    } else if c == 'e' {
        14
    } else {
        15
    }
}

/// The number a sequence of hexadecimal digit characters denotes.
pub open spec fn hex_val(s: Seq<char>) -> nat
    decreases s.len(),
{
    if s.len() == 0 {
        0
    } else {
        hex_val(s.drop_last()) * 16 + hex_digit_val(s.last())
    }
}

/// Law: reading the hexadecimal digits written for `n` back as a number
/// yields `n` again.
pub proof fn lemma_hex_round_trip(n: nat)
    ensures
        hex_val(hex_chars(n)) == n,
    decreases n,
{
    if n < 16 {
        assert(hex_chars(n) == seq![hex_digit_char(n)]);
        assert(hex_chars(n).drop_last() =~= Seq::<char>::empty());
        assert(hex_val(Seq::<char>::empty()) == 0);
        assert(hex_chars(n).last() == hex_digit_char(n));
        assert(hex_val(hex_chars(n)) == hex_val(hex_chars(n).drop_last()) * 16 + hex_digit_val(
            hex_chars(n).last(),
        ));
        assert(hex_digit_val(hex_digit_char(n)) == n);
    } else {
        lemma_hex_round_trip(n / 16);
        assert(hex_chars(n) == hex_chars(n / 16).push(hex_digit_char(n % 16)));
        assert(hex_chars(n).drop_last() =~= hex_chars(n / 16));
        assert(hex_chars(n).last() == hex_digit_char(n % 16));
        assert(hex_val(hex_chars(n)) == hex_val(hex_chars(n).drop_last()) * 16 + hex_digit_val(
            hex_chars(n).last(),
        ));
        assert(hex_digit_val(hex_digit_char(n % 16)) == n % 16);
        assert(hex_val(hex_chars(n)) == (n / 16) * 16 + n % 16);
        vstd::arithmetic::div_mod::lemma_fundamental_div_mod(n as int, 16);
        assert((n / 16) * 16 + n % 16 == n);
    }
}

} // verus!
