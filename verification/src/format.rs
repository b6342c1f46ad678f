//! Russian-locale formatting of money and times, and small presentation
//! helpers.

use crate::text::{
    chars_of, code_point, decimal, decimal_nat, digit, digit_char, push_decimal,
    push_decimal_nat, push_str, string_of, two_digits,
};
use vstd::arithmetic::div_mod::lemma_mod_multiples_vanish;
use vstd::prelude::*;

verus! {

/// A number below one thousand as exactly three digits.
pub open spec fn three_digits(n: int) -> Seq<char> {
    seq![digit_char(n / 100), digit_char((n / 10) % 10), digit_char(n % 10)]
}

/// Decimal notation with the digits in groups of three, counted from the
/// right and set apart by single spaces.
pub open spec fn grouped(n: nat) -> Seq<char>
    decreases n,
{
    if n < 1000 {
        decimal_nat(n)
    } else {
        grouped(n / 1000) + " "@ + three_digits((n % 1000) as int)
    }
}

/// The distance of `n` from zero.
pub open spec fn magnitude(n: int) -> nat {
    if n < 0 {
        (-n) as nat
    } else {
        n as nat
    }
}

/// An amount of hundredths of a ruble as text: the whole rubles in groups
/// of three digits, then a comma and two digits unless the hundredths are
/// zero, then the ruble sign. The minus sign belongs to the whole rubles,
/// so it shows only where they are not zero.
pub open spec fn currency_text(amount: int) -> Seq<char> {
    let whole = magnitude(amount) / 100;
    let hundredths = magnitude(amount) % 100;
    let sign = if amount < 0 && whole > 0 {
        "-"@
    } else {
        Seq::empty()
    };
    let rubles = sign + grouped(whole);
    if hundredths > 0 {
        rubles + ","@ + two_digits(hundredths as int) + " ₽"@
    } else {
        rubles + " ₽"@
    }
}

/// How long ago `timestamp_ms` was, seen from `now_ms`, in Russian.
pub open spec fn relative_time_text(timestamp_ms: int, now_ms: int) -> Seq<char> {
    let seconds = (now_ms - timestamp_ms) / 1000;
    if seconds < 60 {
        "только что"@
    } else if seconds < 3600 {
        decimal(seconds / 60) + " мин. назад"@
    } else if seconds < 86400 {
        decimal(seconds / 3600) + " ч. назад"@
    } else if seconds / 86400 == 1 {
        "вчера"@
    } else {
        decimal(seconds / 86400) + " дн. назад"@
    }
}

/// The id of a user who joins over the web: the time and a random number.
pub open spec fn platform_user_id(now_ms: nat, random: nat) -> Seq<char> {
    "web_"@ + decimal_nat(now_ms) + "_"@ + decimal_nat(random)
}

/// An integer wrapped into the range of `i32`.
pub open spec fn wrap_i32(x: int) -> int {
    let m = x % 0x1_0000_0000;
    if m >= 0x8000_0000 {
        m - 0x1_0000_0000
    } else {
        m
    }
}

/// The hash of a name: starting from 0, each character in turn takes the
/// hash `h` to `31 * h + c`, wrapped into 32 bits.
pub open spec fn name_hash(name: Seq<char>) -> int
    decreases name.len(),
{
    if name.len() == 0 {
        0
    } else {
        wrap_i32(31 * name_hash(name.drop_last()) + name.last() as int)
    }
}

/// The avatar colours, in palette order.
pub open spec fn palette(index: int) -> Seq<char> {
    if index == 0 {
        "#e17076"@
    } else if index == 1 {
        "#faa774"@
    } else if index == 2 {
        "#a695e7"@
    } else if index == 3 {
        "#7bc862"@
    } else if index == 4 {
        "#6ec9cb"@
    } else if index == 5 {
        "#65aadd"@
    } else if index == 6 {
        "#ee7aae"@
    } else {
        "#f5a623"@
    }
}

/// The colour of a name: the palette entry at the magnitude of its hash
/// modulo 8.
pub open spec fn avatar_color(name: Seq<char>) -> Seq<char> {
    palette((magnitude(name_hash(name)) % 8) as int)
}

/// What `char::to_uppercase` of the standard library yields for a
/// character: its Unicode uppercase mapping, which may be several characters.
pub uninterp spec fn uppercase(c: char) -> Seq<char>;

/// Calls `char::to_uppercase` and collects what it yields; the result is the
/// one named [`uppercase`].
#[verifier::external_body]
fn to_uppercase(c: char) -> (upper: String)
    ensures
        upper@ == uppercase(c),
{
    c.to_uppercase().collect()
}

/// The uppercased first character of a name; empty for an empty name.
pub open spec fn initial(name: Seq<char>) -> Seq<char> {
    if name.len() == 0 {
        Seq::empty()
    } else {
        uppercase(name[0])
    }
}

/// The initials of a person, or `?` where both names give none.
pub open spec fn initials(first_name: Seq<char>, last_name: Seq<char>) -> Seq<char> {
    joined_initials(initial(first_name), initial(last_name))
}

fn push_grouped(out: &mut Vec<char>, n: u128)
    ensures
        final(out)@ == old(out)@ + grouped(n as nat),
    decreases n,
{
    if n < 1000 {
        push_decimal_nat(out, n);
    } else {
        push_grouped(out, n / 1000);
        let low: u16 = (n % 1000) as u16;
        push_str(out, " ");
        out.push(digit((low / 100) as u8));
        out.push(digit(((low / 10) % 10) as u8));
        out.push(digit((low % 10) as u8));
        assert(out@ =~= old(out)@ + grouped(n as nat));
    }
}

/// Formats an amount of hundredths of a ruble, of any size.
pub fn format_currency_value(amount: i128) -> (text: String)
    ensures
        text@ == currency_text(amount as int),
{
    let size: u128 = if amount < 0 {
        (-(amount + 1)) as u128 + 1
    } else {
        amount as u128
    };
    let whole: u128 = size / 100;
    let hundredths: u8 = (size % 100) as u8;
    let mut out: Vec<char> = Vec::new();
    if amount < 0 && whole > 0 {
        push_str(&mut out, "-");
    }
    push_grouped(&mut out, whole);
    if hundredths > 0 {
        push_str(&mut out, ",");
        out.push(digit(hundredths / 10));
        out.push(digit(hundredths % 10));
    }
    push_str(&mut out, " ₽");
    assert(out@ =~= currency_text(amount as int));
    string_of(&out)
}

/// Formats an amount of hundredths of a ruble.
pub fn format_currency(amount: i64) -> (text: String)
    ensures
        text@ == currency_text(amount as int),
{
    format_currency_value(amount as i128)
}

/// Says in Russian how long ago `timestamp_ms` was. A time less than a
/// minute back, or ahead of `now_ms`, is "just now".
pub fn format_relative_time(timestamp_ms: i64, now_ms: i64) -> (text: String)
    ensures
        text@ == relative_time_text(timestamp_ms as int, now_ms as int),
{
    let diff: i128 = now_ms as i128 - timestamp_ms as i128;
    if diff < 60_000 {
        assert(diff as int / 1000 < 60);
        return chars_string("только что");
    }
    let seconds: i128 = diff / 1000;
    let mut out: Vec<char> = Vec::new();
    if seconds < 3600 {
        push_decimal(&mut out, seconds / 60);
        push_str(&mut out, " мин. назад");
    } else if seconds < 86400 {
        push_decimal(&mut out, seconds / 3600);
        push_str(&mut out, " ч. назад");
    } else if seconds / 86400 == 1 {
        push_str(&mut out, "вчера");
    } else {
        push_decimal(&mut out, seconds / 86400);
        push_str(&mut out, " дн. назад");
    }
    assert(out@ =~= relative_time_text(timestamp_ms as int, now_ms as int));
    string_of(&out)
}

fn chars_string(s: &str) -> (text: String)
    ensures
        text@ == s@,
{
    s.to_owned()
}

/// Makes the id of a web user from the current time in milliseconds and a
/// random number.
pub fn generate_platform_user_id(now_ms: u64, random: u64) -> (id: String)
    ensures
        id@ == platform_user_id(now_ms as nat, random as nat),
{
    let mut out: Vec<char> = Vec::new();
    push_str(&mut out, "web_");
    push_decimal_nat(&mut out, now_ms as u128);
    push_str(&mut out, "_");
    push_decimal_nat(&mut out, random as u128);
    assert(out@ =~= platform_user_id(now_ms as nat, random as nat));
    string_of(&out)
}

fn hash_step(hash: i32, c: char) -> (next: i32)
    ensures
        next == wrap_i32(31 * hash + c as int),
{
    let code: i64 = code_point(c) as i64;
    let sum: i64 = 31 * (hash as i64) + code;
    let lifted: u64 = (sum + 0x20_0000_0000) as u64;
    let low: u64 = lifted % 0x1_0000_0000;
    proof {
        lemma_mod_multiples_vanish(32, sum as int, 0x1_0000_0000);
    }
    if low >= 0x8000_0000 {
        (low as i64 - 0x1_0000_0000) as i32
    } else {
        low as i32
    }
}

/// Picks the avatar colour for a name. The same name always gets the same
/// colour.
pub fn get_avatar_color(name: &str) -> (color: String)
    ensures
        color@ == avatar_color(name@),
{
    let chars = chars_of(name);
    let mut hash: i32 = 0;
    let mut i: usize = 0;
    while i < chars.len()
        invariant
            i <= chars.len(),
            hash == name_hash(chars@.take(i as int)),
        decreases chars.len() - i,
    {
        assert(chars@.take(i + 1).drop_last() =~= chars@.take(i as int));
        hash = hash_step(hash, chars[i]);
        i += 1;
    }
    assert(chars@.take(chars.len() as int) =~= chars@);
    let size: i64 = if hash < 0 {
        -(hash as i64)
    } else {
        hash as i64
    };
    let index: i64 = size % 8;
    let color = if index == 0 {
        "#e17076"
    } else if index == 1 {
        "#faa774"
    } else if index == 2 {
        "#a695e7"
    } else if index == 3 {
        "#7bc862"
    } else if index == 4 {
        "#6ec9cb"
    } else if index == 5 {
        "#65aadd"
    } else if index == 6 {
        "#ee7aae"
    } else {
        "#f5a623"
    };
    color.to_owned()
}

/// The initials shown for two uppercased initials: both, one after the
/// other, or `?` where both are empty.
pub open spec fn joined_initials(first: Seq<char>, last: Seq<char>) -> Seq<char> {
    let both = first + last;
    if both.len() == 0 {
        "?"@
    } else {
        both
    }
}

/// Joins two initials, or gives `?` where there is neither.
pub fn join_initials(first: &str, last: &str) -> (text: String)
    ensures
        text@ == joined_initials(first@, last@),
{
    let mut out: Vec<char> = Vec::new();
    push_str(&mut out, first);
    push_str(&mut out, last);
    assert(out@ =~= first@ + last@);
    if out.len() == 0 {
        "?".to_owned()
    } else {
        string_of(&out)
    }
}

fn initial_of(name: &str) -> (upper: String)
    ensures
        upper@ == initial(name@),
{
    let chars = chars_of(name);
    if chars.len() > 0 {
        to_uppercase(chars[0])
    } else {
        String::new()
    }
}

/// The initials of a person: the first characters of the two names in
/// upper case, or `?` where there is neither.
pub fn get_initials(first_name: &str, last_name: &str) -> (text: String)
    ensures
        text@ == initials(first_name@, last_name@),
{
    let first = initial_of(first_name);
    let last = initial_of(last_name);
    join_initials(first.as_str(), last.as_str())
}

} // verus!
