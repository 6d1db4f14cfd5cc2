//! Numbers from their text.

use vstd::prelude::*;
use vstd::string::*;

use crate::bits::{low_i64, u64_to_i64};
use crate::text::decimal;

verus! {

/// The value of a digit in a base up to 36, in either case.
pub open spec fn digit_of(c: char, radix: nat) -> Option<nat> {
    let u = c as u32;
    let d: int = if 48 <= u <= 57 {
        u - 48
    } else if 97 <= u <= 122 {
        u - 87
    } else if 65 <= u <= 90 {
        u - 55
    } else {
        99
    };
    if d < radix {
        Some(d as nat)
    } else {
        None
    }
}

/// The value of a string of digits; none if one of its characters is no digit.
pub open spec fn digits_value(s: Seq<char>, radix: nat) -> Option<nat>
    decreases s.len(),
{
    if s.len() == 0 {
        Some(0)
    } else {
        match (digits_value(s.drop_last(), radix), digit_of(s.last(), radix)) {
            (Some(v), Some(d)) => Some(v * radix + d),
            _ => None,
        }
    }
}

/// The value of a nonempty string of digits up to a limit.
pub open spec fn natural(s: Seq<char>, radix: nat, limit: nat) -> Option<nat> {
    if s.len() == 0 {
        None
    } else {
        match digits_value(s, radix) {
            Some(v) => if v <= limit {
                Some(v)
            } else {
                None
            },
            None => None,
        }
    }
}

/// A signed 64-bit numeral: an optional sign and at least one digit.
pub open spec fn i64_value(s: Seq<char>, radix: nat) -> Option<int> {
    if s.len() > 0 && s[0] == '-' {
        match natural(s.skip(1), radix, 0x8000_0000_0000_0000) {
            Some(v) => Some(-(v as int)),
            None => None,
        }
    } else if s.len() > 0 && s[0] == '+' {
        match natural(s.skip(1), radix, 0x7fff_ffff_ffff_ffff) {
            Some(v) => Some(v as int),
            None => None,
        }
    } else {
        match natural(s, radix, 0x7fff_ffff_ffff_ffff) {
            Some(v) => Some(v as int),
            None => None,
        }
    }
}

/// An unsigned 64-bit numeral: an optional plus sign and at least one digit.
pub open spec fn u64_value(s: Seq<char>, radix: nat) -> Option<nat> {
    if s.len() > 0 && s[0] == '+' {
        natural(s.skip(1), radix, 0xffff_ffff_ffff_ffff)
    } else {
        natural(s, radix, 0xffff_ffff_ffff_ffff)
    }
}

proof fn lemma_digits_grow(s: Seq<char>, n: nat, radix: nat)
    requires
        n <= s.len(),
        radix >= 1,
    ensures
        digits_value(s, radix) is Some ==> digits_value(s.take(n as int), radix) is Some && digits_value(
            s.take(n as int),
            radix,
        )->0 <= digits_value(s, radix)->0,
    decreases s.len() - n,
{
    if n == s.len() {
        assert(s.take(n as int) =~= s);
    } else {
        lemma_digits_grow(s, n + 1, radix);
        let t = s.take(n as int + 1);
        assert(t.drop_last() =~= s.take(n as int));
        if digits_value(s, radix) is Some {
            let v = digits_value(s.take(n as int), radix)->0;
            assert(v * radix >= v) by (nonlinear_arith)
                requires
                    radix >= 1,
            ;
        }
    }
}

fn digit(c: char, radix: u32) -> (r: Option<u64>)
    requires
        2 <= radix <= 36,
    ensures
        match r {
            Some(d) => digit_of(c, radix as nat) == Some(d as nat),
            None => digit_of(c, radix as nat) is None,
        },
{
    let u: u32 = c as u32;
    let d: u32 = if 48 <= u && u <= 57 {
        u - 48
    } else if 97 <= u && u <= 122 {
        u - 87
    } else if 65 <= u && u <= 90 {
        u - 55
    } else {
        99
    };
    if d < radix {
        Some(d as u64)
    } else {
        None
    }
}

/// The value of the digits from index `from` on, up to a limit.
fn parse_natural(s: &Vec<char>, from: usize, radix: u32, limit: u64) -> (r: Option<u64>)
    requires
        from <= s@.len(),
        2 <= radix <= 36,
    ensures
        match r {
            Some(v) => natural(s@.skip(from as int), radix as nat, limit as nat) == Some(v as nat),
            None => natural(s@.skip(from as int), radix as nat, limit as nat) is None,
        },
{
    let ghost t = s@.skip(from as int);
    if from == s.len() {
        return None;
    }
    let mut acc: u64 = 0;
    let mut i: usize = from;
    assert(t.take(0) =~= Seq::empty());
    while i < s.len()
        invariant
            from <= i <= s@.len(),
            from < s@.len(),
            t == s@.skip(from as int),
            2 <= radix <= 36,
            acc <= limit,
            digits_value(t.take(i - from), radix as nat) == Some(acc as nat),
        decreases s@.len() - i,
    {
        proof {
            assert(t.take(i - from + 1).drop_last() =~= t.take(i - from));
            assert(t.take(i - from + 1).last() == s@[i as int]);
            lemma_digits_grow(t, (i - from + 1) as nat, radix as nat);
        }
        match digit(s[i], radix) {
            None => {
                return None;
            },
            Some(d) => {
                assert(acc as int * radix as int <= 0xffff_ffff_ffff_ffff * 36) by (nonlinear_arith)
                    requires
                        acc <= 0xffff_ffff_ffff_ffff,
                        0 <= radix <= 36,
                ;
                let next: u128 = (acc as u128) * (radix as u128) + (d as u128);
                if next > limit as u128 {
                    return None;
                }
                acc = next as u64;
            },
        }
        i = i + 1;
    }
    assert(t.take(i - from) =~= t);
    Some(acc)
}

pub fn parse_i64(s: &Vec<char>, radix: u32) -> (r: Option<i64>)
    requires
        2 <= radix <= 36,
    ensures
        match r {
            Some(v) => i64_value(s@, radix as nat) == Some(v as int),
            None => i64_value(s@, radix as nat) is None,
        },
{
    assert(s@.skip(0) =~= s@);
    if s.len() > 0 && s[0] == '-' {
        match parse_natural(s, 1, radix, 0x8000_0000_0000_0000) {
            Some(v) => Some((-(v as i128)) as i64),
            None => None,
        }
    } else if s.len() > 0 && s[0] == '+' {
        match parse_natural(s, 1, radix, 0x7fff_ffff_ffff_ffff) {
            Some(v) => Some(v as i64),
            None => None,
        }
    } else {
        match parse_natural(s, 0, radix, 0x7fff_ffff_ffff_ffff) {
            Some(v) => Some(v as i64),
            None => None,
        }
    }
}

pub fn parse_u64(s: &Vec<char>, radix: u32) -> (r: Option<u64>)
    requires
        2 <= radix <= 36,
    ensures
        match r {
            Some(v) => u64_value(s@, radix as nat) == Some(v as nat),
            None => u64_value(s@, radix as nat) is None,
        },
{
    assert(s@.skip(0) =~= s@);
    if s.len() > 0 && s[0] == '+' {
        parse_natural(s, 1, radix, 0xffff_ffff_ffff_ffff)
    } else {
        parse_natural(s, 0, radix, 0xffff_ffff_ffff_ffff)
    }
}

/// The characters of a string but for one.
pub open spec fn without(s: Seq<char>, c: char) -> Seq<char>
    decreases s.len(),
{
    if s.len() == 0 {
        s
    } else if s.last() == c {
        without(s.drop_last(), c)
    } else {
        without(s.drop_last(), c).push(s.last())
    }
}

fn chars_without(s: &str, c: char) -> (r: Vec<char>)
    ensures
        r@ == without(s@, c),
{
    let n: usize = s.unicode_len();
    let mut r: Vec<char> = Vec::new();
    let mut i: usize = 0;
    assert(s@.take(0) =~= Seq::empty());
    while i < n
        invariant
            i <= n,
            n == s@.len(),
            r@ == without(s@.take(i as int), c),
        decreases n - i,
    {
        assert(s@.take(i as int + 1).drop_last() =~= s@.take(i as int));
        let k: char = s.get_char(i);
        if k != c {
            r.push(k);
        }
        i = i + 1;
    }
    assert(s@.take(n as int) =~= s@);
    r
}

pub open spec fn has_prefix2(s: Seq<char>, a: char, b: char) -> bool {
    s.len() >= 2 && s[0] == a && s[1] == b
}

/// The value of an integer literal of Python: underscores are dropped, and `0x`, `0o` and `0b`
/// (in either case) set the base.
pub open spec fn python_int(text: Seq<char>) -> Option<int> {
    let s = without(text, '_');
    if has_prefix2(s, '0', 'x') || has_prefix2(s, '0', 'X') {
        i64_value(s.skip(2), 16)
    } else if has_prefix2(s, '0', 'o') || has_prefix2(s, '0', 'O') {
        i64_value(s.skip(2), 8)
    } else if has_prefix2(s, '0', 'b') || has_prefix2(s, '0', 'B') {
        i64_value(s.skip(2), 2)
    } else {
        i64_value(s, 10)
    }
}

fn skip2(s: &Vec<char>) -> (r: Vec<char>)
    requires
        s@.len() >= 2,
    ensures
        r@ == s@.skip(2),
{
    let mut r: Vec<char> = Vec::new();
    let mut i: usize = 2;
    while i < s.len()
        invariant
            2 <= i <= s@.len(),
            r@ == s@.subrange(2, i as int),
        decreases s@.len() - i,
    {
        r.push(s[i]);
        i = i + 1;
        assert(r@ =~= s@.subrange(2, i as int));
    }
    assert(r@ =~= s@.skip(2));
    r
}

/// The value of an integer literal of Python.
pub fn parse_int_text(text: &str) -> (r: Option<i64>)
    ensures
        match r {
            Some(v) => python_int(text@) == Some(v as int),
            None => python_int(text@) is None,
        },
{
    let s = chars_without(text, '_');
    if s.len() >= 2 && s[0] == '0' {
        let c = s[1];
        if c == 'x' || c == 'X' {
            return parse_i64(&skip2(&s), 16);
        }
        if c == 'o' || c == 'O' {
            return parse_i64(&skip2(&s), 8);
        }
        if c == 'b' || c == 'B' {
            return parse_i64(&skip2(&s), 2);
        }
    }
    parse_i64(&s, 10)
}

// ---- integer literals of C -----------------------------------------------------------------

/// Whether a character can end an integer literal of C as its suffix.
pub open spec fn suffix_char(c: char) -> bool {
    c == 'u' || c == 'U' || c == 'l' || c == 'L'
}

pub open spec fn without_suffix(s: Seq<char>) -> Seq<char>
    decreases s.len(),
{
    if s.len() > 0 && suffix_char(s.last()) {
        without_suffix(s.drop_last())
    } else {
        s
    }
}

/// The text after every leading repetition of a two-character prefix.
pub open spec fn without_prefix(s: Seq<char>, a: char, b: char) -> Seq<char>
    decreases s.len(),
{
    if has_prefix2(s, a, b) {
        without_prefix(s.skip(2), a, b)
    } else {
        s
    }
}

/// The 64-bit value of digits: as a signed number where it fits, else as an unsigned one
/// taken modulo 2^64, else 0.
pub open spec fn wrapped_value(digits: Seq<char>, radix: nat) -> int {
    match i64_value(digits, radix) {
        Some(v) => v,
        None => match u64_value(digits, radix) {
            Some(v) => if v < 0x8000_0000_0000_0000 {
                v as int
            } else {
                v - 0x1_0000_0000_0000_0000
            },
            None => 0,
        },
    }
}

fn drop_suffix(text: &str) -> (r: Vec<char>)
    ensures
        r@ == without_suffix(text@),
{
    let mut n: usize = text.unicode_len();
    assert(text@.take(n as int) =~= text@);
    let mut go: bool = true;
    while go
        invariant
            n <= text@.len(),
            without_suffix(text@) == without_suffix(text@.take(n as int)),
            !go ==> without_suffix(text@.take(n as int)) == text@.take(n as int),
        decreases n + if go { 1int } else { 0int },
    {
        if n == 0 {
            go = false;
        } else {
            let c: char = text.get_char(n - 1);
            assert(text@.take(n as int).drop_last() =~= text@.take(n - 1));
            if c == 'u' || c == 'U' || c == 'l' || c == 'L' {
                n = n - 1;
            } else {
                go = false;
            }
        }
    }
    let mut r: Vec<char> = Vec::new();
    let mut i: usize = 0;
    while i < n
        invariant
            i <= n <= text@.len(),
            r@ == text@.take(i as int),
        decreases n - i,
    {
        r.push(text.get_char(i));
        i = i + 1;
        assert(r@ =~= text@.take(i as int));
    }
    r
}

fn drop_prefix(s: Vec<char>, a: char, b: char) -> (r: Vec<char>)
    ensures
        r@ == without_prefix(s@, a, b),
    decreases s@.len(),
{
    if s.len() >= 2 && s[0] == a && s[1] == b {
        drop_prefix(skip2(&s), a, b)
    } else {
        s
    }
}

fn wrapped(digits: &Vec<char>, radix: u32) -> (r: i64)
    requires
        2 <= radix <= 36,
    ensures
        r == wrapped_value(digits@, radix as nat),
{
    match parse_i64(digits, radix) {
        Some(v) => v,
        None => match parse_u64(digits, radix) {
            Some(v) => {
                proof {
                    reveal(low_i64);
                }
                u64_to_i64(v)
            },
            None => 0,
        },
    }
}

/// The base that an integer literal is written in.
#[derive(Clone, Copy, Debug, PartialEq, Eq, Structural)]
pub enum IntBase {
    Dec,
    Oct,
    Hex,
    Bin,
}

/// The value of an integer literal of C, by its text and base.
pub open spec fn c_int(text: Seq<char>, base: IntBase) -> int {
    let s = without_suffix(text);
    match base {
        IntBase::Dec => wrapped_value(s, 10),
        IntBase::Oct => wrapped_value(s, 8),
        IntBase::Hex => wrapped_value(
            without_prefix(without_prefix(s, '0', 'x'), '0', 'X'),
            16,
        ),
        IntBase::Bin => wrapped_value(without_prefix(without_prefix(s, '0', 'b'), '0', 'B'), 2),
    }
}

pub fn c_int_value(text: &str, base: IntBase) -> (r: i64)
    ensures
        r == c_int(text@, base),
{
    let s = drop_suffix(text);
    match base {
        IntBase::Dec => wrapped(&s, 10),
        IntBase::Oct => wrapped(&s, 8),
        IntBase::Hex => wrapped(&drop_prefix(drop_prefix(s, '0', 'x'), '0', 'X'), 16),
        IntBase::Bin => wrapped(&drop_prefix(drop_prefix(s, '0', 'b'), '0', 'B'), 2),
    }
}

/// The digits of a floating-point literal of C: its text without the letter of its suffix.
pub fn float_digits(text: &str, has_suffix: bool) -> (digits: String)
    requires
        has_suffix ==> text@.len() > 0,
    ensures
        digits@ == if has_suffix {
            text@.drop_last()
        } else {
            text@
        },
{
    if has_suffix {
        let n: usize = text.unicode_len();
        let digits = text.substring_char(0, n - 1);
        assert(digits@ =~= text@.drop_last());
        digits.to_owned()
    } else {
        text.to_owned()
    }
}

// ---- laws ----------------------------------------------------------------------------------

/// Digits count up from `0` to `9`, and letters of either case on from ten.
pub proof fn law_digits(c: char, radix: nat)
    requires
        radix <= 36,
    ensures
        digit_of(c, radix) matches Some(d) ==> d < radix,
        '0' <= c && c <= '9' && (c as u32) - ('0' as u32) < radix ==> digit_of(c, radix) == Some(
            ((c as u32) - ('0' as u32)) as nat,
        ),
        'a' <= c && c <= 'z' && 10 + (c as u32) - ('a' as u32) < radix ==> digit_of(c, radix) == Some(
            (10 + (c as u32) - ('a' as u32)) as nat,
        ),
        'A' <= c && c <= 'Z' && 10 + (c as u32) - ('A' as u32) < radix ==> digit_of(c, radix) == Some(
            (10 + (c as u32) - ('A' as u32)) as nat,
        ),
        c == '_' || c == ' ' || c == '-' || c == '.' ==> digit_of(c, radix) is None,
{
}

proof fn lemma_decimal(n: nat)
    ensures
        decimal(n).len() > 0,
        forall|i: int|
            0 <= i < decimal(n).len() ==> '0' <= (#[trigger] decimal(n)[i]) && decimal(n)[i] <= '9',
        digits_value(decimal(n), 10) == Some(n),
    decreases n,
{
    reveal_with_fuel(digits_value, 2);
    if n < 10 {
        assert(decimal(n).drop_last() =~= Seq::empty());
    } else {
        lemma_decimal(n / 10);
        assert(decimal(n).drop_last() =~= decimal(n / 10));
        vstd::arithmetic::div_mod::lemma_fundamental_div_mod(n as int, 10);
    }
}

proof fn lemma_without_none(s: Seq<char>, c: char)
    requires
        forall|i: int| 0 <= i < s.len() ==> #[trigger] s[i] != c,
    ensures
        without(s, c) == s,
    decreases s.len(),
{
    if s.len() > 0 {
        assert(s[s.len() - 1] != c);
        lemma_without_none(s.drop_last(), c);
        assert(s.drop_last().push(s.last()) =~= s);
    }
}

/// The decimal numeral of a number of 63 bits is read back as the number, in Python and in C.
pub proof fn law_decimal_is_read_back(n: nat)
    requires
        n <= 0x7fff_ffff_ffff_ffff,
    ensures
        python_int(decimal(n)) == Some(n as int),
        c_int(decimal(n), IntBase::Dec) == n,
{
    let s = decimal(n);
    lemma_decimal(n);
    assert(s[0] != '-' && s[0] != '+');
    assert(s[s.len() - 1] <= '9');
    assert forall|i: int| 0 <= i < s.len() implies #[trigger] s[i] != '_' by {}
    lemma_without_none(s, '_');
    if s.len() >= 2 {
        assert(s[1] <= '9');
    }
}

proof fn lemma_without_one(a: Seq<char>, b: Seq<char>, c: char)
    ensures
        without(a.push(c) + b, c) == without(a + b, c),
    decreases b.len(),
{
    if b.len() == 0 {
        assert(a.push(c) + b =~= a.push(c));
        assert(a.push(c).drop_last() =~= a);
        assert(a + b =~= a);
    } else {
        lemma_without_one(a, b.drop_last(), c);
        assert((a.push(c) + b).drop_last() =~= a.push(c) + b.drop_last());
        assert((a + b).drop_last() =~= a + b.drop_last());
    }
}

/// An underscore anywhere in a literal of Python changes nothing.
pub proof fn law_underscores_do_not_count(a: Seq<char>, b: Seq<char>)
    ensures
        python_int(a.push('_') + b) == python_int(a + b),
{
    lemma_without_one(a, b, '_');
}

/// The letters `u` and `l` behind a literal of C, in either case, change nothing.
pub proof fn law_suffixes_do_not_count(s: Seq<char>, base: IntBase)
    ensures
        c_int(s.push('u'), base) == c_int(s, base),
        c_int(s.push('U'), base) == c_int(s, base),
        c_int(s.push('l'), base) == c_int(s, base),
        c_int(s.push('L'), base) == c_int(s, base),
{
    assert(s.push('u').drop_last() =~= s);
    assert(s.push('U').drop_last() =~= s);
    assert(s.push('l').drop_last() =~= s);
    assert(s.push('L').drop_last() =~= s);
}

/// One more digit behind a literal of Python with a prefix is worth the base times what was there
/// and the digit: sixteen for `0x`, eight for `0o`, two for `0b`.
pub proof fn law_prefixes(letter: char, radix: nat, s: Seq<char>, c: char, v: nat, d: nat)
    requires
        (letter, radix) == ('x', 16nat) || (letter, radix) == ('X', 16nat) || (letter, radix) == (
            'o',
            8nat,
        ) || (letter, radix) == ('O', 8nat) || (letter, radix) == ('b', 2nat) || (letter, radix)
            == ('B', 2nat),
        s.len() > 0,
        forall|i: int|
            0 <= i < s.len() ==> (#[trigger] s[i]) != '_' && s[i] != '-' && s[i] != '+',
        python_int(seq!['0', letter] + s) == Some(v as int),
        digit_of(c, radix) == Some(d),
        v * radix + d <= 0x7fff_ffff_ffff_ffff,
    ensures
        python_int(seq!['0', letter] + s.push(c)) == Some((v * radix + d) as int),
{
    let p = seq!['0', letter];
    let (x, y) = (p + s, p + s.push(c));
    assert forall|i: int| 0 <= i < x.len() implies #[trigger] x[i] != '_' by {
        if i >= 2 {
            assert(x[i] == s[i - 2]);
        }
    }
    assert forall|i: int| 0 <= i < y.len() implies #[trigger] y[i] != '_' by {
        if 2 <= i < 2 + s.len() {
            assert(y[i] == s[i - 2]);
        }
    }
    lemma_without_none(x, '_');
    lemma_without_none(y, '_');
    assert(x.skip(2) =~= s);
    assert(y.skip(2) =~= s.push(c));
    assert(s.push(c).drop_last() =~= s);
    assert(s.push(c)[0] == s[0]);
    assert(v >= 0 && v * radix + d >= 0);
}

} // verus!
