use vstd::prelude::*;

use crate::structs::config::{setting_name, Config};

verus! {

/// The characters of a string, in order.
pub fn chars_of(s: &str) -> (v: Vec<char>)
    ensures
        v@ == s@,
{
    let mut v: Vec<char> = Vec::new();
    for c in it: s.chars()
        invariant
            v@ == it.seq().take(it.index() as int),
    {
        v.push(c);
    }
    v
}

/// Whether two character sequences are equal.
pub fn same_chars(a: &Vec<char>, b: &Vec<char>) -> (r: bool)
    ensures
        r == (a@ == b@),
{
    if a.len() != b.len() {
        return false;
    }
    let mut i: usize = 0;
    while i < a.len()
        invariant
            a@.len() == b@.len(),
            i <= a@.len(),
            forall|j: int| 0 <= j < i ==> a@[j] == b@[j],
        decreases a.len() - i,
    {
        if a[i] != b[i] {
            return false;
        }
        i += 1;
    }
    assert(a@ =~= b@);
    true
}

/// The index of the first space in `s` at or after `i`, or the length of `s`
/// when there is none: where the field that starts at `i` ends.
pub open spec fn first_space_from(s: Seq<char>, i: int) -> int
    decreases s.len() - i,
{
    if i >= s.len() {
        s.len() as int
    } else if s[i] == ' ' {
        i
    } else {
        first_space_from(s, i + 1)
    }
}

/// A field ends at or after where it starts, and within the text.
proof fn lemma_first_space_bounds(s: Seq<char>, i: int)
    requires
        0 <= i <= s.len(),
    ensures
        i <= first_space_from(s, i) <= s.len(),
        first_space_from(s, i) < s.len() ==> s[first_space_from(s, i)] == ' ',
        forall|j: int| i <= j < first_space_from(s, i) ==> s[j] != ' ',
    decreases s.len() - i,
{
    if i < s.len() && s[i] != ' ' {
        lemma_first_space_bounds(s, i + 1);
    }
}

/// Where the first space-separated field of a command ends.
pub open spec fn key_end(s: Seq<char>) -> int {
    first_space_from(s, 0)
}

/// The command has a second space-separated field.
pub open spec fn has_value(s: Seq<char>) -> bool {
    key_end(s) < s.len()
}

/// The first field of `s` split at every single space.
pub open spec fn command_key(s: Seq<char>) -> Seq<char> {
    s.subrange(0, key_end(s))
}

/// The second field of `s` split at every single space.
pub open spec fn command_value(s: Seq<char>) -> Seq<char> {
    s.subrange(key_end(s) + 1, first_space_from(s, key_end(s) + 1))
}

pub open spec fn is_digit(c: char) -> bool {
    '0' <= c <= '9'
}

/// The number that a sequence of decimal digits denotes.
pub open spec fn digits_value(d: Seq<char>) -> nat
    decreases d.len(),
{
    if d.len() == 0 {
        0
    } else {
        digits_value(d.drop_last()) * 10 + (d.last() as nat - '0' as nat) as nat
    }
}

/// The digits of an unsigned decimal: the text without a leading `+`.
pub open spec fn unsigned_digits(s: Seq<char>) -> Seq<char> {
    if s.len() > 0 && s[0] == '+' {
        s.drop_first()
    } else {
        s
    }
}

/// The text is a `u16` in decimal, as Rust's `u16::from_str` reads it: an
/// optional `+`, then one or more ASCII digits, with a value of at most 65535.
pub open spec fn parses_as_u16(s: Seq<char>) -> bool {
    let d = unsigned_digits(s);
    &&& d.len() > 0
    &&& forall|i: int| 0 <= i < d.len() ==> #[trigger] is_digit(d[i])
    &&& digits_value(d) <= u16::MAX
}

/// The value of a text that `parses_as_u16`.
pub open spec fn u16_value(s: Seq<char>) -> u16 {
    digits_value(unsigned_digits(s)) as u16
}

/// A longer run of digits is worth at least as much as its prefix.
proof fn lemma_digits_value_prefix(d: Seq<char>, k: int)
    requires
        0 <= k <= d.len(),
        forall|i: int| 0 <= i < d.len() ==> #[trigger] is_digit(d[i]),
    ensures
        digits_value(d.take(k)) <= digits_value(d),
    decreases d.len() - k,
{
    if k < d.len() {
        lemma_digits_value_prefix(d, k + 1);
        assert(d.take(k + 1).drop_last() =~= d.take(k));
        assert(is_digit(d[k]));
    } else {
        assert(d.take(k) =~= d);
    }
}

/// Reads a `u16` written in decimal, as `u16::from_str` does.
pub fn parse_u16(s: &Vec<char>) -> (r: Option<u16>)
    ensures
        r == if parses_as_u16(s@) {
            Some(u16_value(s@))
        } else {
            None::<u16>
        },
{
    let start: usize = if s.len() > 0 && s[0] == '+' {
        1
    } else {
        0
    };
    let ghost d = unsigned_digits(s@);
    assert(d =~= s@.subrange(start as int, s@.len() as int));
    if start == s.len() {
        return None;
    }
    let mut value: u32 = 0;
    let mut overflow = false;
    let mut i: usize = start;
    while i < s.len()
        invariant
            d == s@.subrange(start as int, s@.len() as int),
            d == unsigned_digits(s@),
            start <= i <= s@.len(),
            forall|j: int| 0 <= j < i - start ==> #[trigger] is_digit(d[j]),
            !overflow ==> value == digits_value(d.take(i - start)),
            overflow ==> digits_value(d.take(i - start)) > u16::MAX,
            value <= u16::MAX,
        decreases s.len() - i,
    {
        let c = s[i];
        if !('0' <= c && c <= '9') {
            assert(!is_digit(d[i - start]));
            return None;
        }
        proof {
            assert(d.take(i - start + 1).drop_last() =~= d.take(i - start));
            assert(d.take(i - start + 1).last() == c);
        }
        if !overflow {
            let next = value * 10 + (c as u32 - '0' as u32);
            if next > 65535 {
                overflow = true;
            } else {
                value = next;
            }
        }
        i += 1;
    }
    assert(d.take(d.len() as int) =~= d);
    if overflow {
        proof {
            lemma_digits_value_prefix(d, d.len() as int);
        }
        None
    } else {
        Some(value as u16)
    }
}

/// The index where the field that starts at `i` ends.
fn field_end(s: &Vec<char>, i: usize) -> (e: usize)
    requires
        i <= s@.len(),
    ensures
        e == first_space_from(s@, i as int),
{
    let mut e = i;
    while e < s.len() && s[e] != ' '
        invariant
            i <= e <= s@.len(),
            first_space_from(s@, e as int) == first_space_from(s@, i as int),
        decreases s.len() - e,
    {
        e += 1;
    }
    e
}

/// The characters of `s` from `start` up to `end`.
fn slice_chars(s: &Vec<char>, start: usize, end: usize) -> (v: Vec<char>)
    requires
        start <= end <= s@.len(),
    ensures
        v@ == s@.subrange(start as int, end as int),
{
    let mut v: Vec<char> = Vec::new();
    let mut i = start;
    while i < end
        invariant
            start <= i <= end <= s@.len(),
            v@ == s@.subrange(start as int, i as int),
        decreases end - i,
    {
        v.push(s[i]);
        i += 1;
    }
    v
}

/// The command can be applied: it has a key and a value separated by a space,
/// the value is a `u16` in decimal and the key names a setting.
pub open spec fn command_applies(s: Seq<char>) -> bool {
    &&& has_value(s)
    &&& parses_as_u16(command_value(s))
    &&& command_key(s) == setting_name()
}

/// The configuration after a command that applies.
pub open spec fn apply_command(config: Config, s: Seq<char>) -> Config {
    Config { border_width: u16_value(command_value(s)) }
}

/// A setting written by a command reads back as the value the command gave.
pub proof fn law_command_reads_back(config: Config, s: Seq<char>)
    requires
        command_applies(s),
    ensures
        apply_command(config, s).setting(command_key(s)) == u16_value(command_value(s)),
{
}

/// The decimal digit of `d`, for `d < 10`.
pub open spec fn digit_char(d: nat) -> char {
    ('0' as nat + d) as char
}

/// How a number is written in decimal (as `format!("{}", n)` writes it): its
/// digits, most significant first, with no leading zero.
pub open spec fn decimal(n: nat) -> Seq<char>
    decreases n,
{
    if n < 10 {
        seq![digit_char(n)]
    } else {
        decimal(n / 10).push(digit_char(n % 10))
    }
}

/// The decimal text of a number is a run of digits with that value.
pub proof fn lemma_decimal(n: nat)
    ensures
        decimal(n).len() > 0,
        forall|i: int| 0 <= i < decimal(n).len() ==> #[trigger] is_digit(decimal(n)[i]),
        digits_value(decimal(n)) == n,
    decreases n,
{
    assert(digit_char(n % 10) as nat == '0' as nat + n % 10);
    if n >= 10 {
        lemma_decimal(n / 10);
        let d = decimal(n);
        assert(d.last() == digit_char(n % 10));
        assert(d.drop_last() =~= decimal(n / 10));
        assert(digits_value(d) == digits_value(decimal(n / 10)) * 10 + n % 10);
        assert((n / 10) * 10 + n % 10 == n);
        assert forall|i: int| 0 <= i < d.len() implies #[trigger] is_digit(d[i]) by {
            if i < d.len() - 1 {
                assert(d[i] == decimal(n / 10)[i]);
            }
        }
    } else {
        let d = decimal(n);
        assert(d.drop_last() =~= Seq::<char>::empty());
        assert(digits_value(d.drop_last()) == 0);
        assert(d.last() == digit_char(n));
        assert(digit_char(n) as nat == '0' as nat + n);
        assert(digits_value(d) == n);
    }
}

/// A `u16` written in decimal reads back as itself.
pub proof fn law_decimal_parses_back(v: u16)
    ensures
        parses_as_u16(decimal(v as nat)),
        u16_value(decimal(v as nat)) == v,
{
    lemma_decimal(v as nat);
    let d = decimal(v as nat);
    assert(is_digit(d[0]));
    assert(unsigned_digits(d) == d);
}

/// The command that the control client sends for `border_width` and `v`:
/// the key, one space, and `v` in decimal.
pub open spec fn border_width_command(v: u16) -> Seq<char> {
    setting_name() + seq![' '] + decimal(v as nat)
}

/// The command `"border_width <v>"` applies, and sets the border width to `v`.
pub proof fn law_border_width_command_round_trip(config: Config, v: u16)
    ensures
        command_applies(border_width_command(v)),
        apply_command(config, border_width_command(v)).border_width == v,
{
    let s = border_width_command(v);
    let d = decimal(v as nat);
    let n = setting_name().len() as int;
    law_decimal_parses_back(v);
    lemma_decimal(v as nat);
    assert(s.len() == n + 1 + d.len());
    assert forall|i: int| 0 <= i < n implies s[i] != ' ' && s[i] == setting_name()[i] by {}
    assert(s[n] == ' ');
    assert forall|j: int| 0 <= j <= n implies first_space_from(s, j) == n by {
        lemma_first_space_walk(s, j, n);
    }
    assert forall|i: int| 0 <= i < d.len() implies s[n + 1 + i] == d[i] && s[n + 1 + i] != ' ' by {
        assert(is_digit(d[i]));
    }
    assert forall|j: int| n + 1 <= j <= s.len() implies first_space_from(s, j) == s.len() by {
        lemma_first_space_walk(s, j, s.len() as int);
    }
    assert(command_key(s) =~= setting_name());
    assert(command_value(s) =~= d);
}

/// Walking from `j` over characters that are not spaces reaches the space
/// (or the end) at `e`.
proof fn lemma_first_space_walk(s: Seq<char>, j: int, e: int)
    requires
        0 <= j <= e <= s.len(),
        forall|i: int| j <= i < e ==> s[i] != ' ',
        e == s.len() || s[e] == ' ',
    ensures
        first_space_from(s, j) == e,
    decreases e - j,
{
    if j < e {
        lemma_first_space_walk(s, j + 1, e);
    }
}

/// Applies a command `"<key> <value>"` to the configuration: the setting named
/// by the first space-separated field takes the number in the second.
pub fn parse_command(command: String, config: &mut Config)
    requires
        command_applies(command@),
    ensures
        *final(config) == apply_command(*old(config), command@),
{
    let command = chars_of(command.as_str());
    let key_end = field_end(&command, 0);
    proof {
        lemma_first_space_bounds(command@, 0);
        lemma_first_space_bounds(command@, key_end + 1);
    }
    let key = slice_chars(&command, 0, key_end);
    let value_end = field_end(&command, key_end + 1);
    let value = slice_chars(&command, key_end + 1, value_end);
    let parsed = parse_u16(&value).unwrap();
    *config.setting_mut(&key) = parsed;
}

} // verus!
