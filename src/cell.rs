//! Typed values of a result row, and the coercion of a text field into one.
//!
//! A field is tried as a 64-bit integer, then as a floating-point literal, and
//! kept as text otherwise; an empty field is null. A floating-point value is
//! carried as the literal that denotes it.
use vstd::prelude::*;
use crate::text::chars_of;

verus! {

/// One value of a row.
#[derive(Debug)]
pub enum Cell {
    Null,
    Int(i64),
    Float(String),
    Text(String),
}

/// The mathematical value of a `Cell`.
pub enum CellV {
    Null,
    Int(int),
    Float(Seq<char>),
    Text(Seq<char>),
}

impl View for Cell {
    type V = CellV;

    open spec fn view(&self) -> CellV {
        match self {
            Cell::Null => CellV::Null,
            Cell::Int(i) => CellV::Int(*i as int),
            Cell::Float(s) => CellV::Float(s@),
            Cell::Text(s) => CellV::Text(s@),
        }
    }
}

impl Cell {
    /// A copy of this value.
    pub fn copy(&self) -> (r: Cell)
        ensures
            r@ == self@,
    {
        match self {
            Cell::Null => Cell::Null,
            Cell::Int(i) => Cell::Int(*i),
            Cell::Float(s) => Cell::Float(s.clone()),
            Cell::Text(s) => Cell::Text(s.clone()),
        }
    }

    /// Whether this value is null.
    pub fn is_null(&self) -> (r: bool)
        ensures
            r == (self@ is Null),
    {
        match self {
            Cell::Null => true,
            _ => false,
        }
    }
}

pub open spec fn is_digit(c: char) -> bool {
    '0' <= c && c <= '9'
}

pub open spec fn digit_val(c: char) -> int {
    c as int - '0' as int
}

/// The number written by a run of decimal digits.
pub open spec fn digits_value(s: Seq<char>) -> int
    decreases s.len(),
{
    if s.len() == 0 {
        0
    } else {
        digits_value(s.drop_last()) * 10 + digit_val(s.last())
    }
}

pub open spec fn all_digits(s: Seq<char>) -> bool {
    forall|i: int| 0 <= i < s.len() ==> is_digit(#[trigger] s[i])
}

pub open spec fn has_sign(s: Seq<char>) -> bool {
    s.len() > 0 && (s[0] == '-' || s[0] == '+')
}

/// The digits of `s` after an optional sign.
pub open spec fn unsigned_part(s: Seq<char>) -> Seq<char> {
    if has_sign(s) {
        s.drop_first()
    } else {
        s
    }
}

/// The 64-bit integer that `s` denotes: an optional sign and at least one decimal
/// digit, in range.
pub open spec fn int_of_text(s: Seq<char>) -> Option<int> {
    let body = unsigned_part(s);
    if body.len() > 0 && all_digits(body) {
        let v = if s[0] == '-' {
            -digits_value(body)
        } else {
            digits_value(body)
        };
        if i64::MIN <= v <= i64::MAX {
            Some(v)
        } else {
            None
        }
    } else {
        None
    }
}

proof fn lemma_digits_nonneg(s: Seq<char>)
    requires
        all_digits(s),
    ensures
        digits_value(s) >= 0,
    decreases s.len(),
{
    if s.len() > 0 {
        assert(all_digits(s.drop_last()));
        lemma_digits_nonneg(s.drop_last());
    }
}

proof fn lemma_digits_prefix_le(s: Seq<char>, k: int)
    requires
        all_digits(s),
        0 <= k <= s.len(),
    ensures
        digits_value(s.subrange(0, k)) <= digits_value(s),
    decreases s.len(),
{
    if k < s.len() {
        let t = s.drop_last();
        assert(all_digits(t));
        lemma_digits_prefix_le(t, k);
        assert(t.subrange(0, k) =~= s.subrange(0, k));
        lemma_digits_nonneg(t);
    } else {
        assert(s.subrange(0, k) =~= s);
    }
}

const TWO_POW_63: u64 = 9223372036854775808;

/// The 64-bit integer written in `cs`, if it is one.
pub fn parse_int(cs: &Vec<char>) -> (r: Option<i64>)
    ensures
        match r {
            Some(v) => int_of_text(cs@) == Some(v as int),
            None => int_of_text(cs@) is None,
        },
{
    let n = cs.len();
    let start: usize = if n > 0 && (cs[0] == '-' || cs[0] == '+') {
        1
    } else {
        0
    };
    let ghost body = unsigned_part(cs@);
    assert(body =~= cs@.subrange(start as int, n as int));
    if start >= n {
        return None;
    }
    let mut mag: u64 = 0;
    let mut i: usize = start;
    while i < n
        invariant
            n == cs@.len(),
            start <= i <= n,
            body == cs@.subrange(start as int, n as int),
            body == unsigned_part(cs@),
            start == 1 <==> has_sign(cs@),
            forall|j: int| 0 <= j < i - start ==> is_digit(#[trigger] body[j]),
            mag as int == digits_value(body.subrange(0, i - start)),
            mag <= TWO_POW_63,
        decreases n - i,
    {
        let c = cs[i];
        if !('0' <= c && c <= '9') {
            assert(body[i - start] == c);
            assert(!is_digit(body[i - start]));
            assert(!all_digits(body));
            return None;
        }
        let d = (c as u32 - '0' as u32) as u64;
        assert(body.subrange(0, i + 1 - start).drop_last() =~= body.subrange(0, i - start));
        assert(body.subrange(0, i + 1 - start).last() == c);
        assert(digits_value(body.subrange(0, i + 1 - start)) == mag * 10 + d);
        if mag > (TWO_POW_63 - d) / 10 {
            proof {
                assert(mag * 10 + d > TWO_POW_63) by (nonlinear_arith)
                    requires
                        mag > (TWO_POW_63 - d) / 10,
                        d <= 9,
                ;
                let ghost rest_ok = all_digits(body);
                if rest_ok {
                    lemma_digits_prefix_le(body, i + 1 - start);
                }
            }
            return None;
        }
        assert(mag * 10 + d <= TWO_POW_63) by (nonlinear_arith)
            requires
                mag <= (TWO_POW_63 - d) / 10,
                d <= 9,
        ;
        mag = mag * 10 + d;
        i = i + 1;
    }
    assert(body.subrange(0, n - start) =~= body);
    if cs[0] == '-' {
        if mag == TWO_POW_63 {
            Some(i64::MIN)
        } else {
            Some(-(mag as i64))
        }
    } else {
        if mag == TWO_POW_63 {
            None
        } else {
            Some(mag as i64)
        }
    }
}

/// Index just past the run of decimal digits of `s` that starts at `i`.
pub open spec fn digit_run_end(s: Seq<char>, i: int) -> int
    decreases s.len() - i,
{
    if 0 <= i < s.len() && is_digit(s[i]) {
        digit_run_end(s, i + 1)
    } else {
        i
    }
}

pub open spec fn ascii_lower(c: char) -> char {
    if 'A' <= c && c <= 'Z' {
        ((c as u8) + 32) as char
    } else {
        c
    }
}

/// `s` spells `word` (lower case letters) in any mix of cases.
pub open spec fn spells(s: Seq<char>, word: Seq<char>) -> bool {
    s.len() == word.len() && forall|i: int| 0 <= i < s.len() ==> ascii_lower(#[trigger] s[i]) == word[i]
}

/// `s` names infinity or not-a-number.
pub open spec fn special_float(s: Seq<char>) -> bool {
    spells(s, seq!['i', 'n', 'f']) || spells(s, seq!['i', 'n', 'f', 'i', 'n', 'i', 't', 'y'])
        || spells(s, seq!['n', 'a', 'n'])
}

/// `s[f..]` is an exponent: `e` or `E`, an optional sign, and at least one digit.
pub open spec fn exponent_text(s: Seq<char>, f: int) -> bool {
    &&& f < s.len()
    &&& (s[f] == 'e' || s[f] == 'E')
    &&& {
        let g = if f + 1 < s.len() && (s[f + 1] == '+' || s[f + 1] == '-') {
            f + 2
        } else {
            f + 1
        };
        let h = digit_run_end(s, g);
        h > g && h == s.len()
    }
}

/// `s` is a decimal literal: digits, an optional point with digits after it (at
/// least one digit in all), and an optional exponent.
pub open spec fn decimal_text(s: Seq<char>) -> bool {
    let a = digit_run_end(s, 0);
    let f = if a < s.len() && s[a] == '.' {
        digit_run_end(s, a + 1)
    } else {
        a
    };
    let digits = if a < s.len() && s[a] == '.' {
        a + (f - (a + 1))
    } else {
        a
    };
    digits > 0 && (f == s.len() || exponent_text(s, f))
}

/// `s` is a floating-point literal: an optional sign, then a decimal literal or
/// the name of infinity or not-a-number.
pub open spec fn float_text(s: Seq<char>) -> bool {
    let body = unsigned_part(s);
    special_float(body) || decimal_text(body)
}

fn digit_run_end_exec(cs: &Vec<char>, i: usize) -> (r: usize)
    requires
        i <= cs@.len(),
    ensures
        r as int == digit_run_end(cs@, i as int),
        i <= r <= cs@.len(),
{
    let mut j = i;
    while j < cs.len() && '0' <= cs[j] && cs[j] <= '9'
        invariant
            i <= j <= cs@.len(),
            digit_run_end(cs@, j as int) == digit_run_end(cs@, i as int),
        decreases cs@.len() - j,
    {
        j = j + 1;
    }
    j
}

fn ascii_lower_exec(c: char) -> (r: char)
    ensures
        r == ascii_lower(c),
{
    if 'A' <= c && c <= 'Z' {
        ((c as u8) + 32) as char
    } else {
        c
    }
}

fn spells_exec(cs: &Vec<char>, from: usize, word: &Vec<char>) -> (r: bool)
    requires
        from <= cs@.len(),
    ensures
        r == spells(cs@.subrange(from as int, cs@.len() as int), word@),
{
    let ghost s = cs@.subrange(from as int, cs@.len() as int);
    let cl = cs.len();
    if cl - from != word.len() {
        return false;
    }
    let mut i: usize = 0;
    while i < word.len()
        invariant
            s == cs@.subrange(from as int, cs@.len() as int),
            s.len() == word@.len(),
            from + word@.len() == cs@.len(),
            cl == cs@.len(),
            i <= word@.len(),
            forall|j: int| 0 <= j < i ==> ascii_lower(#[trigger] s[j]) == word@[j],
        decreases word@.len() - i,
    {
        if ascii_lower_exec(cs[from + i]) != word[i] {
            assert(s[i as int] == cs@[from + i]);
            return false;
        }
        assert(s[i as int] == cs@[from + i]);
        i = i + 1;
    }
    true
}

/// Whether `cs` is a floating-point literal.
pub fn is_float_text(cs: &Vec<char>) -> (r: bool)
    ensures
        r == float_text(cs@),
{
    let n = cs.len();
    let from: usize = if n > 0 && (cs[0] == '-' || cs[0] == '+') {
        1
    } else {
        0
    };
    let ghost s = unsigned_part(cs@);
    assert(s =~= cs@.subrange(from as int, n as int));
    let inf = vec!['i', 'n', 'f'];
    let infinity = vec!['i', 'n', 'f', 'i', 'n', 'i', 't', 'y'];
    let nan = vec!['n', 'a', 'n'];
    assert(inf@ =~= seq!['i', 'n', 'f']);
    assert(infinity@ =~= seq!['i', 'n', 'f', 'i', 'n', 'i', 't', 'y']);
    assert(nan@ =~= seq!['n', 'a', 'n']);
    if spells_exec(cs, from, &inf) || spells_exec(cs, from, &infinity) || spells_exec(cs, from, &nan) {
        return true;
    }
    // Digits before the point, counted on the unsigned part.
    let a = digit_run_end_exec(cs, from);
    proof {
        lemma_shift_digit_run(cs@, from as int, from as int);
    }
    let has_point = a < n && cs[a] == '.';
    let f = if has_point {
        let e = digit_run_end_exec(cs, a + 1);
        proof {
            lemma_shift_digit_run(cs@, from as int, a + 1);
        }
        e
    } else {
        a
    };
    let digits = if has_point {
        (a - from) + (f - (a + 1))
    } else {
        a - from
    };
    if digits == 0 {
        return false;
    }
    if f == n {
        return true;
    }
    if !(cs[f] == 'e' || cs[f] == 'E') {
        return false;
    }
    let g = if f + 1 < n && (cs[f + 1] == '+' || cs[f + 1] == '-') {
        f + 2
    } else {
        f + 1
    };
    let h = digit_run_end_exec(cs, g);
    proof {
        lemma_shift_digit_run(cs@, from as int, g as int);
    }
    h > g && h == n
}

/// A digit run measured in `s` equals the one measured in `s` with its first
/// `from` characters dropped, shifted by `from`.
proof fn lemma_shift_digit_run(s: Seq<char>, from: int, i: int)
    requires
        0 <= from <= i <= s.len(),
    ensures
        digit_run_end(s, i) - from == digit_run_end(s.subrange(from, s.len() as int), i - from),
    decreases s.len() - i,
{
    let t = s.subrange(from, s.len() as int);
    if i < s.len() && is_digit(s[i]) {
        assert(t[i - from] == s[i]);
        lemma_shift_digit_run(s, from, i + 1);
    } else if i < s.len() {
        assert(t[i - from] == s[i]);
    }
}

/// The value that a text field stands for.
pub open spec fn infer(s: Seq<char>) -> CellV {
    if s.len() == 0 {
        CellV::Null
    } else {
        match int_of_text(s) {
            Some(v) => CellV::Int(v),
            None => if float_text(s) {
                CellV::Float(s)
            } else {
                CellV::Text(s)
            },
        }
    }
}

/// The typed value of a text field: null when empty, else an integer, else a
/// floating-point literal, else text.
pub fn infer_cell(field: &str) -> (r: Cell)
    ensures
        r@ == infer(field@),
{
    let cs = chars_of(field);
    if cs.len() == 0 {
        return Cell::Null;
    }
    match parse_int(&cs) {
        Some(v) => Cell::Int(v),
        None => {
            if is_float_text(&cs) {
                Cell::Float(field.to_string())
            } else {
                Cell::Text(field.to_string())
            }
        },
    }
}

} // verus!
