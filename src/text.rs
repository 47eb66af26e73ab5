use vstd::prelude::*;
use vstd::string::{StringExecFns, StrSliceExecFns};
use crate::object::{AttribKey, AttribType, AttribValue, Obj, entries_wf, map_of, lemma_key_ids};
use crate::timeline::UNIT;

verus! {

pub open spec fn is_digit(c: char) -> bool {
    '0' <= c <= '9'
}

pub open spec fn digit_val(c: char) -> int {
    c as int - '0' as int
}

pub open spec fn digit_char(d: int) -> char {
    if d == 0 {
        '0'
    } else if d == 1 {
        '1'
    } else if d == 2 {
        '2'
    } else if d == 3 {
        '3'
    } else if d == 4 {
        '4'
    } else if d == 5 {
        '5'
    } else if d == 6 {
        '6'
    } else if d == 7 {
        '7'
    } else if d == 8 {
        '8'
    } else {
        '9'
    }
}

pub open spec fn all_digits(s: Seq<char>) -> bool {
    forall|i: int| 0 <= i < s.len() ==> is_digit(#[trigger] s[i])
}

/// Value of a string of decimal digits.
pub open spec fn digits_value(s: Seq<char>) -> int
    decreases s.len(),
{
    if s.len() == 0 {
        0
    } else {
        digits_value(s.drop_last()) * 10 + digit_val(s.last())
    }
}

/// Decimal digits of `n`, without leading zeros.
pub open spec fn nat_text(n: nat) -> Seq<char>
    decreases n,
{
    if n < 10 {
        seq![digit_char(n as int)]
    } else {
        nat_text(n / 10).push(digit_char((n % 10) as int))
    }
}

/// Decimal text of `i`, with a leading `-` when negative.
pub open spec fn int_text(i: int) -> Seq<char> {
    if i < 0 {
        seq!['-'] + nat_text((-i) as nat)
    } else {
        nat_text(i as nat)
    }
}

/// Integer written as an optional sign and at least one digit.
pub open spec fn parse_int(s: Seq<char>) -> Option<int> {
    if s.len() > 0 && (s[0] == '-' || s[0] == '+') {
        let d = s.drop_first();
        if d.len() > 0 && all_digits(d) {
            Some(if s[0] == '-' { -digits_value(d) } else { digits_value(d) })
        } else {
            None
        }
    } else if s.len() > 0 && all_digits(s) {
        Some(digits_value(s))
    } else {
        None
    }
}

proof fn lemma_digits_value_bound(s: Seq<char>)
    requires
        all_digits(s),
    ensures
        0 <= digits_value(s),
    decreases s.len(),
{
    if s.len() > 0 {
        lemma_digits_value_bound(s.drop_last());
    }
}

/// Value of the digits `s` as an integer at most `limit`, or `None` when it
/// is larger.
fn digits_upto(s: &Vec<char>, from: usize, limit: u64) -> (r: Option<u64>)
    requires
        from <= s@.len(),
        all_digits(s@.subrange(from as int, s@.len() as int)),
        limit <= u64::MAX / 10 - 10,
    ensures
        ({
            let v = digits_value(s@.subrange(from as int, s@.len() as int));
            match r {
                Some(x) => x == v && v <= limit,
                None => v > limit,
            }
        }),
{
    let mut acc: u64 = 0;
    let mut i: usize = from;
    while i < s.len()
        invariant
            from <= i <= s@.len(),
            all_digits(s@.subrange(from as int, s@.len() as int)),
            acc == digits_value(s@.subrange(from as int, i as int)),
            acc <= limit,
            limit <= u64::MAX / 10 - 10,
        decreases s@.len() - i,
    {
        assert(s@.subrange(from as int, i + 1).drop_last() =~= s@.subrange(from as int, i as int));
        assert(s@.subrange(from as int, s@.len() as int)[i - from] == s@[i as int]);
        let d = (s[i] as u32 - '0' as u32) as u64;
        acc = acc * 10 + d;
        if acc > limit {
            proof {
                lemma_digits_grow(s@, from as int, i + 1, s@.len() as int);
            }
            return None;
        }
        i += 1;
    }
    assert(s@.subrange(from as int, i as int) =~= s@.subrange(from as int, s@.len() as int));
    Some(acc)
}

proof fn lemma_digits_grow(s: Seq<char>, from: int, i: int, n: int)
    requires
        0 <= from <= i <= n <= s.len(),
        all_digits(s.subrange(from, n)),
    ensures
        digits_value(s.subrange(from, i)) <= digits_value(s.subrange(from, n)),
    decreases n - i,
{
    if i < n {
        lemma_digits_grow(s, from, i, n - 1);
        assert(s.subrange(from, n).drop_last() =~= s.subrange(from, n - 1));
        assert(all_digits(s.subrange(from, n - 1))) by {
            assert forall|k: int| 0 <= k < n - 1 - from implies is_digit(
                #[trigger] s.subrange(from, n - 1)[k],
            ) by {
                assert(s.subrange(from, n - 1)[k] == s.subrange(from, n)[k]);
            }
        }
        lemma_digits_value_bound(s.subrange(from, n - 1));
        assert(is_digit(s.subrange(from, n)[n - 1 - from]));
    }
}

fn all_digits_from(s: &Vec<char>, from: usize) -> (r: bool)
    requires
        from <= s@.len(),
    ensures
        r == all_digits(s@.subrange(from as int, s@.len() as int)),
{
    let mut i: usize = from;
    while i < s.len()
        invariant
            from <= i <= s@.len(),
            forall|k: int| from <= k < i ==> is_digit(#[trigger] s@[k]),
        decreases s@.len() - i,
    {
        if !('0' <= s[i] && s[i] <= '9') {
            assert(s@.subrange(from as int, s@.len() as int)[i - from] == s@[i as int]);
            return false;
        }
        i += 1;
    }
    assert forall|k: int| 0 <= k < s@.len() - from implies is_digit(
        #[trigger] s@.subrange(from as int, s@.len() as int)[k],
    ) by {
        assert(s@.subrange(from as int, s@.len() as int)[k] == s@[from + k]);
    }
    true
}

/// Parses an `i32` written as an optional sign and decimal digits.
pub fn parse_i32(s: &Vec<char>) -> (r: Option<i32>)
    ensures
        match parse_int(s@) {
            Some(v) => if i32::MIN <= v <= i32::MAX {
                r == Some(v as i32)
            } else {
                r is None
            },
            None => r is None,
        },
{
    let n = s.len();
    if n == 0 {
        return None;
    }
    let signed = s[0] == '-' || s[0] == '+';
    let from: usize = if signed { 1 } else { 0 };
    if from >= n || !all_digits_from(s, from) {
        proof {
            if signed {
                assert(s@.drop_first() =~= s@.subrange(1, n as int));
            } else {
                assert(s@ =~= s@.subrange(0, n as int));
            }
        }
        return None;
    }
    proof {
        if signed {
            assert(s@.drop_first() =~= s@.subrange(1, n as int));
        } else {
            assert(s@ =~= s@.subrange(0, n as int));
        }
        lemma_digits_value_bound(s@.subrange(from as int, n as int));
    }
    match digits_upto(s, from, 2_147_483_648) {
        Some(v) => {
            if s[0] == '-' {
                Some((-(v as i64)) as i32)
            } else if v <= 2_147_483_647 {
                Some(v as i32)
            } else {
                None
            }
        },
        None => None,
    }
}

/// Index of the first `c` in `s`; `s.len()` when there is none.
pub open spec fn first_index(s: Seq<char>, c: char) -> int
    decreases s.len(),
{
    if s.len() == 0 {
        0
    } else if s[0] == c {
        0
    } else {
        1 + first_index(s.drop_first(), c)
    }
}

pub open spec fn pow10(k: nat) -> int
    decreases k,
{
    if k == 0 {
        1
    } else {
        10 * pow10((k - 1) as nat)
    }
}

/// The first six fractional digits, or all of them when there are fewer.
pub open spec fn frac_head(fr: Seq<char>) -> Seq<char> {
    if fr.len() > 6 {
        fr.subrange(0, 6)
    } else {
        fr
    }
}

/// 1 when the fractional digits beyond the sixth make half a millionth or
/// more (the seventh digit is 5 or above), else 0.
pub open spec fn round_up(fr: Seq<char>) -> int {
    if fr.len() > 6 && digit_val(fr[6]) >= 5 {
        1
    } else {
        0
    }
}

/// Millionths given by a decimal without sign: digits, then optionally a
/// `.` and more digits, with at least one digit in all; the value is
/// rounded to the nearest millionth, halves up.
pub open spec fn unsigned_micro(b: Seq<char>) -> Option<int> {
    let dot = first_index(b, '.');
    let ip = b.subrange(0, dot);
    let fr = if dot < b.len() { b.subrange(dot + 1, b.len() as int) } else { seq![] };
    let fp = frac_head(fr);
    if all_digits(ip) && all_digits(fr) && ip.len() + fr.len() >= 1 {
        Some(digits_value(ip) * UNIT + digits_value(fp) * pow10((6 - fp.len()) as nat) + round_up(fr))
    } else {
        None
    }
}

/// Millionths given by a decimal with an optional sign.
pub open spec fn parse_micro(s: Seq<char>) -> Option<int> {
    if s.len() > 0 && (s[0] == '-' || s[0] == '+') {
        match unsigned_micro(s.drop_first()) {
            Some(v) => Some(if s[0] == '-' { -v } else { v }),
            None => None,
        }
    } else {
        unsigned_micro(s)
    }
}

proof fn lemma_first_index(s: Seq<char>, c: char)
    ensures
        0 <= first_index(s, c) <= s.len(),
        first_index(s, c) < s.len() ==> s[first_index(s, c)] == c,
        forall|k: int| 0 <= k < first_index(s, c) ==> s[k] != c,
    decreases s.len(),
{
    if s.len() > 0 && s[0] != c {
        lemma_first_index(s.drop_first(), c);
        assert forall|k: int| 0 <= k < first_index(s, c) implies s[k] != c by {
            if k > 0 {
                assert(s[k] == s.drop_first()[k - 1]);
            }
        }
    }
}

fn slice_of(s: &Vec<char>, from: usize, to: usize) -> (r: Vec<char>)
    requires
        from <= to <= s@.len(),
    ensures
        r@ == s@.subrange(from as int, to as int),
{
    let mut r: Vec<char> = Vec::new();
    let mut i: usize = from;
    while i < to
        invariant
            from <= i <= to <= s@.len(),
            r@ == s@.subrange(from as int, i as int),
        decreases to - i,
    {
        r.push(s[i]);
        assert(r@ =~= s@.subrange(from as int, i + 1));
        i += 1;
    }
    r
}

proof fn lemma_digits_value_lt(s: Seq<char>)
    requires
        all_digits(s),
    ensures
        0 <= digits_value(s) < pow10(s.len()),
    decreases s.len(),
{
    if s.len() > 0 {
        let t = s.drop_last();
        assert(all_digits(t)) by {
            assert forall|k: int| 0 <= k < t.len() implies is_digit(#[trigger] t[k]) by {
                assert(t[k] == s[k]);
            }
        }
        lemma_digits_value_lt(t);
        assert(is_digit(s[s.len() - 1]));
        assert(pow10(s.len()) == 10 * pow10(t.len()));
    }
}

proof fn lemma_pow10_mono(a: nat, b: nat)
    requires
        a <= b,
    ensures
        1 <= pow10(a) <= pow10(b),
    decreases b,
{
    if b > a {
        lemma_pow10_mono(a, (b - 1) as nat);
    } else {
        lemma_pow10_pos(a);
    }
}

proof fn lemma_pow10_pos(k: nat)
    ensures
        pow10(k) >= 1,
    decreases k,
{
    if k > 0 {
        lemma_pow10_pos((k - 1) as nat);
    }
}

proof fn lemma_pow10_bound(k: nat)
    requires
        k <= 6,
    ensures
        1 <= pow10(k) <= 1_000_000,
{
    reveal_with_fuel(pow10, 7);
}

/// Parses a decimal into millionths: an optional sign, digits, and
/// fractional digits after a `.`, rounded to the nearest millionth; `None`
/// when the text has another form or the value does not fit an `i64`.
pub fn parse_decimal(s: &Vec<char>) -> (r: Option<i64>)
    ensures
        match parse_micro(s@) {
            Some(v) => if i64::MIN < v <= i64::MAX {
                r == Some(v as i64)
            } else {
                r is None
            },
            None => r is None,
        },
{
    let n = s.len();
    let signed = n > 0 && (s[0] == '-' || s[0] == '+');
    let from: usize = if signed { 1 } else { 0 };
    let b = slice_of(s, from, n);
    proof {
        if signed {
            assert(b@ =~= s@.drop_first());
        } else {
            assert(b@ =~= s@);
        }
        lemma_first_index(b@, '.');
    }
    let mut dot: usize = 0;
    while dot < b.len() && b[dot] != '.'
        invariant
            dot <= b@.len(),
            forall|k: int| 0 <= k < dot ==> b@[k] != '.',
        decreases b@.len() - dot,
    {
        dot += 1;
    }
    proof {
        lemma_first_index(b@, '.');
        assert(dot == first_index(b@, '.'));
    }
    let ip = slice_of(&b, 0, dot);
    let fr = if dot < b.len() { slice_of(&b, dot + 1, b.len()) } else { Vec::new() };
    proof {
        assert(ip@ =~= ip@.subrange(0, ip@.len() as int));
        assert(fr@ =~= fr@.subrange(0, fr@.len() as int));
    }
    if !all_digits_from(&ip, 0) || !all_digits_from(&fr, 0) || ip.len() + fr.len() < 1 {
        return None;
    }
    let head_len: usize = if fr.len() > 6 { 6 } else { fr.len() };
    let fp = slice_of(&fr, 0, head_len);
    let up: u128 = if fr.len() > 6 && fr[6] >= '5' { 1 } else { 0 };
    proof {
        assert(fp@ =~= frac_head(fr@));
        assert(fp@ =~= fp@.subrange(0, fp@.len() as int));
        assert forall|k: int| 0 <= k < fp@.len() implies is_digit(#[trigger] fp@[k]) by {
            assert(fp@[k] == fr@[k]);
        }
        if fr@.len() > 6 {
            assert(fr@[6] == fr@.subrange(0, fr@.len() as int)[6]);
        }
        assert(up == round_up(fr@));
    }
    let iv = match digits_upto(&ip, 0, 9_223_372_036_854) {
        Some(v) => v,
        None => {
            proof {
                lemma_digits_value_bound(fp@);
                lemma_pow10_bound((6 - fp@.len()) as nat);
                let a = digits_value(fp@);
                let c = pow10((6 - fp@.len()) as nat);
                assert(a * c >= 0) by (nonlinear_arith)
                    requires
                        a >= 0,
                        c >= 1,
                ;
                let fpart = a * c;
                assert(ip@ =~= ip@.subrange(0, ip@.len() as int));
                assert(unsigned_micro(b@) == Some(digits_value(ip@) * UNIT + fpart + round_up(fr@)));
            }
            return None;
        },
    };
    let fv = match digits_upto(&fp, 0, 999_999) {
        Some(v) => v,
        None => {
            proof {
                lemma_digits_value_lt(fp@);
                lemma_pow10_mono(fp@.len(), 6);
                assert(pow10(6) == 1_000_000) by {
                    reveal_with_fuel(pow10, 7);
                }
            }
            return None;
        },
    };
    let mut scale: u64 = 1;
    let mut k: usize = fp.len();
    while k < 6
        invariant
            fp@.len() <= k <= 6,
            scale == pow10((k - fp@.len()) as nat),
            1 <= scale <= 1_000_000,
        decreases 6 - k,
    {
        proof {
            lemma_pow10_bound((k + 1 - fp@.len()) as nat);
            assert(pow10((k + 1 - fp@.len()) as nat) == 10 * pow10((k - fp@.len()) as nat));
        }
        scale = scale * 10;
        k += 1;
    }
    assert(fv * scale <= 999_999_000_000) by (nonlinear_arith)
        requires
            fv <= 999_999,
            scale <= 1_000_000,
    ;
    let mag: u128 = iv as u128 * UNIT as u128 + (fv * scale) as u128 + up;
    if mag > i64::MAX as u128 {
        return None;
    }
    let v = mag as i64;
    if s.len() > 0 && s[0] == '-' {
        Some(-v)
    } else {
        Some(v)
    }
}

/// Pieces of `s[0..k]` split at `sep`: the finished pieces, and the piece
/// being read.
pub open spec fn split_fold(s: Seq<char>, sep: char, k: int) -> (Seq<Seq<char>>, Seq<char>)
    decreases k,
{
    if k <= 0 {
        (seq![], seq![])
    } else {
        let (done, cur) = split_fold(s, sep, k - 1);
        if s[k - 1] == sep {
            (done.push(cur), seq![])
        } else {
            (done, cur.push(s[k - 1]))
        }
    }
}

/// `s` split at every `sep`: one piece more than there are separators.
pub open spec fn pieces(s: Seq<char>, sep: char) -> Seq<Seq<char>> {
    let (done, cur) = split_fold(s, sep, s.len() as int);
    done.push(cur)
}

pub open spec fn is_ws(c: char) -> bool {
    c == ' ' || c == '\t' || c == '\n' || c == '\r' || c == '\x0B' || c == '\x0C'
}

/// `s` without its whitespace.
pub open spec fn strip(s: Seq<char>) -> Seq<char>
    decreases s.len(),
{
    if s.len() == 0 {
        s
    } else if is_ws(s.last()) {
        strip(s.drop_last())
    } else {
        strip(s.drop_last()).push(s.last())
    }
}

pub open spec fn views_of(v: Seq<Vec<char>>) -> Seq<Seq<char>> {
    v.map_values(|x: Vec<char>| x@)
}

/// Splits `s` at every `sep`.
pub fn split_on(s: &Vec<char>, sep: char) -> (r: Vec<Vec<char>>)
    ensures
        views_of(r@) == pieces(s@, sep),
{
    let mut done: Vec<Vec<char>> = Vec::new();
    let mut cur: Vec<char> = Vec::new();
    let mut i: usize = 0;
    while i < s.len()
        invariant
            i <= s@.len(),
            (views_of(done@), cur@) == split_fold(s@, sep, i as int),
        decreases s@.len() - i,
    {
        if s[i] == sep {
            let ghost d = done@;
            done.push(cur);
            cur = Vec::new();
            assert(views_of(done@) =~= views_of(d).push(split_fold(s@, sep, i as int).1));
        } else {
            cur.push(s[i]);
        }
        i += 1;
    }
    let ghost d = done@;
    done.push(cur);
    assert(views_of(done@) =~= views_of(d).push(split_fold(s@, sep, s@.len() as int).1));
    done
}

/// `s` without its whitespace.
pub fn strip_ws(s: &Vec<char>) -> (r: Vec<char>)
    ensures
        r@ == strip(s@),
{
    let mut r: Vec<char> = Vec::new();
    let mut i: usize = 0;
    while i < s.len()
        invariant
            i <= s@.len(),
            r@ == strip(s@.subrange(0, i as int)),
        decreases s@.len() - i,
    {
        let c = s[i];
        assert(s@.subrange(0, i + 1).drop_last() =~= s@.subrange(0, i as int));
        if !(c == ' ' || c == '\t' || c == '\n' || c == '\r' || c == '\x0B' || c == '\x0C') {
            r.push(c);
        }
        i += 1;
    }
    assert(s@.subrange(0, s@.len() as int) =~= s@);
    r
}

/// What a parsed value holds, as plain mathematical values.
pub enum ValueModel {
    Int(int),
    Float(int),
    Bool(bool),
    Array(Seq<int>),
    Hsv(int, int, int, bool, bool),
    Text(Seq<char>),
}

/// The model of an attribute value.
pub open spec fn model(v: AttribValue) -> ValueModel {
    match v {
        AttribValue::Int(i) => ValueModel::Int(i as int),
        AttribValue::Float(f) => ValueModel::Float(f as int),
        AttribValue::Bool(b) => ValueModel::Bool(b),
        AttribValue::Array(a) => ValueModel::Array(a@.map_values(|x: i32| x as int)),
        AttribValue::Hsv { h, s, v, s_checked, v_checked } => ValueModel::Hsv(
            h as int,
            s as int,
            v as int,
            s_checked,
            v_checked,
        ),
        AttribValue::Text(t) => ValueModel::Text(t@),
    }
}

pub open spec fn i32_of(s: Seq<char>) -> Option<int> {
    match parse_int(s) {
        Some(v) => if i32::MIN <= v <= i32::MAX {
            Some(v)
        } else {
            None
        },
        None => None,
    }
}

/// An unsigned 16-bit number: digits, optionally after a `+`.
pub open spec fn u16_of(s: Seq<char>) -> Option<int> {
    match parse_int(s) {
        Some(v) => if s[0] != '-' && 0 <= v <= u16::MAX {
            Some(v)
        } else {
            None
        },
        None => None,
    }
}

pub open spec fn micro_of(s: Seq<char>) -> Option<int> {
    match parse_micro(s) {
        Some(v) => if i64::MIN < v <= i64::MAX {
            Some(v)
        } else {
            None
        },
        None => None,
    }
}

/// Elements `0..k` of a `.`-separated list of `i32`s.
pub open spec fn ints_of(p: Seq<Seq<char>>, k: int) -> Option<Seq<int>>
    decreases k,
{
    if k <= 0 {
        Some(seq![])
    } else {
        match (ints_of(p, k - 1), i32_of(p[k - 1])) {
            (Some(a), Some(x)) => Some(a.push(x)),
            _ => None,
        }
    }
}

/// The value that the whitespace-free text `v` gives for type `t`.
pub open spec fn value_of(t: AttribType, v: Seq<char>) -> Option<ValueModel> {
    match t {
        AttribType::Int => match i32_of(v) {
            Some(x) => Some(ValueModel::Int(x)),
            None => None,
        },
        AttribType::Float => match micro_of(v) {
            Some(x) => Some(ValueModel::Float(x)),
            None => None,
        },
        AttribType::Bool => match i32_of(v) {
            Some(x) => Some(ValueModel::Bool(x == 1)),
            None => None,
        },
        AttribType::Array => {
            let p = pieces(v, '.');
            match ints_of(p, p.len() as int) {
                Some(a) => Some(ValueModel::Array(a)),
                None => None,
            }
        },
        AttribType::Hsv => {
            let p = pieces(v, 'a');
            if p.len() == 5 && micro_of(p[0]) is Some && micro_of(p[1]) is Some && micro_of(p[2]) is Some
                && u16_of(p[3]) is Some && u16_of(p[4]) is Some {
                Some(
                    ValueModel::Hsv(
                        micro_of(p[0])->0,
                        micro_of(p[1])->0,
                        micro_of(p[2])->0,
                        u16_of(p[3])->0 == 1,
                        u16_of(p[4])->0 == 1,
                    ),
                )
            } else {
                None
            }
        },
        AttribType::Text => Some(ValueModel::Text(v)),
    }
}

pub fn parse_value(t: AttribType, v: &Vec<char>) -> (r: Option<AttribValue>)
    ensures
        match value_of(t, v@) {
            Some(m) => r matches Some(x) && model(x) == m && x.spec_type() == t,
            None => r is None,
        },
        r matches Some(x) ==> (plain(v@) ==> writable(x)),
{
    match t {
        AttribType::Int => match parse_i32(v) {
            Some(x) => Some(AttribValue::Int(x)),
            None => None,
        },
        AttribType::Float => match parse_decimal(v) {
            Some(x) => Some(AttribValue::Float(x)),
            None => None,
        },
        AttribType::Bool => match parse_i32(v) {
            Some(x) => Some(AttribValue::Bool(x == 1)),
            None => None,
        },
        AttribType::Array => {
            let p = split_on(v, '.');
            let mut a: Vec<i32> = Vec::new();
            let mut i: usize = 0;
            while i < p.len()
                invariant
                    i <= p@.len(),
                    t == AttribType::Array,
                    views_of(p@) == pieces(v@, '.'),
                    ints_of(views_of(p@), i as int) == Some(a@.map_values(|x: i32| x as int)),
                    a@.len() == i,
                decreases p@.len() - i,
            {
                assert(views_of(p@)[i as int] == p@[i as int]@);
                match parse_i32(&p[i]) {
                    Some(x) => {
                        let ghost before = a@;
                        a.push(x);
                        assert(a@.map_values(|x: i32| x as int) =~= before.map_values(|x: i32| x as int).push(x as int));
                    },
                    None => {
                        proof {
                            assert(i32_of(views_of(p@)[i as int]) is None);
                            assert(ints_of(views_of(p@), i as int + 1) is None);
                            lemma_ints_fail(views_of(p@), i as int + 1, p@.len() as int);
                        }
                        return None;
                    },
                }
                i += 1;
            }
            proof {
                lemma_pieces_nonempty(v@, '.');
            }
            Some(AttribValue::Array(a))
        },
        AttribType::Hsv => {
            let p = split_on(v, 'a');
            if p.len() != 5 {
                return None;
            }
            proof {
                assert(views_of(p@)[0] == p@[0]@);
                assert(views_of(p@)[1] == p@[1]@);
                assert(views_of(p@)[2] == p@[2]@);
                assert(views_of(p@)[3] == p@[3]@);
                assert(views_of(p@)[4] == p@[4]@);
            }
            let h = parse_decimal(&p[0]);
            let s = parse_decimal(&p[1]);
            let w = parse_decimal(&p[2]);
            let sc = parse_u16(&p[3]);
            let vc = parse_u16(&p[4]);
            match (h, s, w, sc, vc) {
                (Some(h), Some(s), Some(w), Some(sc), Some(vc)) => Some(
                    AttribValue::Hsv { h, s, v: w, s_checked: sc == 1, v_checked: vc == 1 },
                ),
                _ => None,
            }
        },
        AttribType::Text => Some(AttribValue::Text(text_of(v))),
    }
}

proof fn lemma_ints_fail(p: Seq<Seq<char>>, k: int, n: int)
    requires
        1 <= k <= n,
        ints_of(p, k) is None,
    ensures
        ints_of(p, n) is None,
    decreases n - k,
{
    if k < n {
        lemma_ints_fail(p, k + 1, n);
    }
}

pub fn parse_u16(s: &Vec<char>) -> (r: Option<u16>)
    ensures
        match u16_of(s@) {
            Some(v) => r == Some(v as u16),
            None => r is None,
        },
{
    if s.len() > 0 && s[0] == '-' {
        return None;
    }
    match parse_i32(s) {
        Some(x) => if 0 <= x && x <= 65535 {
            Some(x as u16)
        } else {
            None
        },
        None => None,
    }
}

/// Relies on `String::push`: the character is appended at the end.
#[verifier::external_body]
fn push_char(s: &mut String, c: char)
    ensures
        final(s)@ == old(s)@.push(c),
{
    s.push(c)
}

/// The characters `v` as a string.
pub fn text_of(v: &Vec<char>) -> (r: String)
    ensures
        r@ == v@,
{
    let mut t = String::new();
    let mut i: usize = 0;
    while i < v.len()
        invariant
            i <= v@.len(),
            t@ == v@.subrange(0, i as int),
        decreases v@.len() - i,
    {
        push_char(&mut t, v[i]);
        assert(t@ =~= v@.subrange(0, i + 1));
        i += 1;
    }
    assert(v@.subrange(0, v@.len() as int) =~= v@);
    t
}

/// The characters of `s`.
pub fn chars_of(s: &str) -> (r: Vec<char>)
    ensures
        r@ == s@,
{
    let n = s.unicode_len();
    let mut r: Vec<char> = Vec::new();
    let mut i: usize = 0;
    while i < n
        invariant
            i <= n,
            n == s@.len(),
            r@ == s@.subrange(0, i as int),
        decreases n - i,
    {
        r.push(s.get_char(i));
        assert(r@ =~= s@.subrange(0, i + 1));
        i += 1;
    }
    assert(s@.subrange(0, n as int) =~= s@);
    r
}

/// Attributes read from the first `k` key/value pairs of the pieces `p`
/// (pair `i` is pieces `2i` and `2i + 1`), whitespace removed. A pair whose
/// key is not a known key id is skipped; a later pair for a key replaces an
/// earlier one; a value that does not read as its key's type is an error
/// naming that key.
pub open spec fn parse_pairs(p: Seq<Seq<char>>, k: int) -> Result<Map<AttribKey, ValueModel>, AttribKey>
    decreases k,
{
    if k <= 0 {
        Ok(Map::empty())
    } else {
        match parse_pairs(p, k - 1) {
            Err(e) => Err(e),
            Ok(m) => {
                let ks = strip(p[2 * (k - 1)]);
                let vs = strip(p[2 * (k - 1) + 1]);
                match u16_of(ks) {
                    None => Ok(m),
                    Some(id) => match AttribKey::spec_from_id(id as u16) {
                        None => Ok(m),
                        Some(key) => match value_of(key.spec_type(), vs) {
                            Some(v) => Ok(m.insert(key, v)),
                            None => Err(key),
                        },
                    },
                }
            },
        }
    }
}

/// Attributes of an object's text: `key,value,` pairs split at commas.
pub open spec fn parse_obj(s: Seq<char>) -> Result<Map<AttribKey, ValueModel>, AttribKey> {
    let p = pieces(s, ',');
    parse_pairs(p, p.len() as int / 2)
}

/// Models of the attributes of `o`.
pub open spec fn obj_model(o: Obj) -> Map<AttribKey, ValueModel> {
    o@.map_values(|v: AttribValue| model(v))
}

/// Why an object's text could not be read.
#[derive(Clone, Copy, Debug, PartialEq, Eq, Structural)]
pub enum ParseError {
    /// The value given for this key does not read as the key's type.
    BadValue(AttribKey),
}

impl Obj {
    /// Reads an object from its text form.
    pub fn parse(s: &str) -> (r: Result<Obj, ParseError>)
        ensures
            match parse_obj(s@) {
                Ok(m) => r matches Ok(o) && obj_model(o) == m,
                Err(k) => r == Err::<Obj, ParseError>(ParseError::BadValue(k)),
            },
            r matches Ok(o) ==> forall|k: AttribKey| #[trigger] o@.contains_key(k) ==> writable(o@[k]),
    {
        let chars = chars_of(s);
        let p = split_on(&chars, ',');
        let plen = p.len();
        let npairs = plen / 2;
        let mut obj = Obj::empty();
        let mut i: usize = 0;
        proof {
            assert(obj_model(obj) =~= Map::<AttribKey, ValueModel>::empty());
            lemma_pieces_free_of_sep(s@, ',');
            assert forall|j: int| 0 <= j < p@.len() implies free_of(#[trigger] p@[j]@, ',') by {
                assert(views_of(p@)[j] == p@[j]@);
            }
        }
        while i < npairs
            invariant
                i <= npairs,
                npairs == p@.len() / 2,
                plen == p@.len(),
                views_of(p@) == pieces(s@, ','),
                parse_pairs(views_of(p@), i as int) == Ok::<Map<AttribKey, ValueModel>, AttribKey>(
                    obj_model(obj),
                ),
                forall|k: AttribKey| #[trigger] obj@.contains_key(k) ==> writable(obj@[k]),
                forall|j: int| 0 <= j < p@.len() ==> free_of(#[trigger] p@[j]@, ','),
            decreases npairs - i,
        {
            assert(2 * i + 1 < p@.len()) by {
                vstd::arithmetic::div_mod::lemma_fundamental_div_mod(p@.len() as int, 2);
            }
            assert(views_of(p@)[2 * i as int] == p@[2 * i as int]@);
            assert(views_of(p@)[2 * i + 1] == p@[2 * i + 1]@);
            let a: usize = i + i;
            let ks = strip_ws(&p[a]);
            let vs = strip_ws(&p[a + 1]);
            proof {
                lemma_strip_props(p@[a + 1]@, ',');
            }
            if let Some(id) = parse_u16(&ks) {
                if let Some(key) = AttribKey::from_id(id) {
                    match parse_value(key.get_type(), &vs) {
                        Some(v) => {
                            let ghost before = obj_model(obj);
                            obj.set(key, v);
                            assert(obj_model(obj) =~= before.insert(key, model(v)));
                        },
                        None => {
                            proof {
                                lemma_pairs_fail(views_of(p@), i as int + 1, npairs as int, key);
                            }
                            return Err(ParseError::BadValue(key));
                        },
                    }
                }
            }
            i += 1;
        }
        Ok(obj)
    }
}

proof fn lemma_pairs_fail(p: Seq<Seq<char>>, k: int, n: int, key: AttribKey)
    requires
        1 <= k <= n,
        parse_pairs(p, k) == Err::<Map<AttribKey, ValueModel>, AttribKey>(key),
    ensures
        parse_pairs(p, n) == Err::<Map<AttribKey, ValueModel>, AttribKey>(key),
    decreases n - k,
{
    if k < n {
        lemma_pairs_fail(p, k + 1, n, key);
    }
}

/// Six digits of the millionths `f < 1_000_000`, zero-padded.
pub open spec fn six_digits(f: int) -> Seq<char> {
    seq![
        digit_char(f / 100000 % 10),
        digit_char(f / 10000 % 10),
        digit_char(f / 1000 % 10),
        digit_char(f / 100 % 10),
        digit_char(f / 10 % 10),
        digit_char(f % 10),
    ]
}

/// `s` without its trailing zeros.
pub open spec fn trim_zeros(s: Seq<char>) -> Seq<char>
    decreases s.len(),
{
    if s.len() > 0 && s.last() == '0' {
        trim_zeros(s.drop_last())
    } else {
        s
    }
}

/// Decimal text of `v` millionths: sign, whole part, and the fraction
/// without trailing zeros after a `.` when there is one.
pub open spec fn micro_text(v: int) -> Seq<char> {
    let m = if v < 0 { -v } else { v };
    let sign = if v < 0 { seq!['-'] } else { seq![] };
    let frac = m % (UNIT as int);
    sign + nat_text((m / (UNIT as int)) as nat) + if frac == 0 {
        seq![]
    } else {
        seq!['.'] + trim_zeros(six_digits(frac))
    }
}

/// `a[0..k]` joined by `.`.
pub open spec fn join_ints(a: Seq<int>, k: int) -> Seq<char>
    decreases k,
{
    if k <= 0 {
        seq![]
    } else if k == 1 {
        int_text(a[0])
    } else {
        join_ints(a, k - 1) + seq!['.'] + int_text(a[k - 1])
    }
}

pub open spec fn bit_text(b: bool) -> Seq<char> {
    if b {
        seq!['1']
    } else {
        seq!['0']
    }
}

/// Text form of a value.
pub open spec fn value_text(m: ValueModel) -> Seq<char> {
    match m {
        ValueModel::Int(i) => int_text(i),
        ValueModel::Float(f) => micro_text(f),
        ValueModel::Bool(b) => bit_text(b),
        ValueModel::Array(a) => join_ints(a, a.len() as int),
        ValueModel::Hsv(h, s, v, sc, vc) => micro_text(h) + seq!['a'] + micro_text(s) + seq!['a']
            + micro_text(v) + seq!['a'] + bit_text(sc) + seq!['a'] + bit_text(vc),
        ValueModel::Text(t) => t,
    }
}

/// Text form of the entries `e[0..k]`: `id, value,` for each.
pub open spec fn entries_text(e: Seq<(AttribKey, AttribValue)>, k: int) -> Seq<char>
    decreases k,
{
    if k <= 0 {
        seq![]
    } else {
        entries_text(e, k - 1) + nat_text(e[k - 1].0.spec_id() as nat) + seq![',', ' '] + value_text(
            model(e[k - 1].1),
        ) + seq![',']
    }
}

fn push_digit(s: &mut String, d: u64)
    requires
        d < 10,
    ensures
        final(s)@ == old(s)@.push(digit_char(d as int)),
{
    let c = match d {
        0 => '0',
        1 => '1',
        2 => '2',
        3 => '3',
        4 => '4',
        5 => '5',
        6 => '6',
        7 => '7',
        8 => '8',
        _ => '9',
    };
    push_char(s, c);
}

fn push_nat(s: &mut String, n: u64)
    ensures
        final(s)@ == old(s)@ + nat_text(n as nat),
    decreases n,
{
    if n >= 10 {
        push_nat(s, n / 10);
        push_digit(s, n % 10);
        assert(final(s)@ =~= old(s)@ + nat_text(n as nat));
    } else {
        push_digit(s, n);
        assert(final(s)@ =~= old(s)@ + nat_text(n as nat));
    }
}

fn push_int(s: &mut String, i: i64)
    ensures
        final(s)@ == old(s)@ + int_text(i as int),
{
    if i < 0 {
        push_char(s, '-');
        let m: u64 = if i == i64::MIN { 0x8000_0000_0000_0000u64 } else { (-i) as u64 };
        push_nat(s, m);
        assert(final(s)@ =~= old(s)@ + int_text(i as int));
    } else {
        push_nat(s, i as u64);
    }
}

fn push_micro(s: &mut String, v: i64)
    ensures
        final(s)@ == old(s)@ + micro_text(v as int),
{
    let ghost start = s@;
    let m: u64 = if v == i64::MIN { 0x8000_0000_0000_0000u64 } else if v < 0 { (-v) as u64 } else { v as u64 };
    if v < 0 {
        push_char(s, '-');
    }
    push_nat(s, m / 1_000_000);
    let f = m % 1_000_000;
    if f != 0 {
        push_char(s, '.');
        let mut d: Vec<u64> = Vec::new();
        d.push(f / 100000 % 10);
        d.push(f / 10000 % 10);
        d.push(f / 1000 % 10);
        d.push(f / 100 % 10);
        d.push(f / 10 % 10);
        d.push(f % 10);
        let ghost six = six_digits(f as int);
        proof {
            assert(d@[0] == f / 100000 % 10);
            assert(d@[5] == f % 10);
            assert(six.subrange(0, 6) =~= six);
            assert forall|k: int| 0 <= k < 6 implies d@[k] < 10 && six[k] == digit_char(
                #[trigger] d@[k] as int,
            ) by {
                if k == 0 {
                } else if k == 1 {
                } else if k == 2 {
                } else if k == 3 {
                } else if k == 4 {
                } else {
                }
            }
        }
        let mut n: usize = 6;
        while n > 0 && d[n - 1] == 0
            invariant
                0 <= n <= 6,
                d@.len() == 6,
                six.len() == 6,
                forall|k: int| 0 <= k < 6 ==> d@[k] < 10 && six[k] == digit_char(#[trigger] d@[k] as int),
                trim_zeros(six) == trim_zeros(six.subrange(0, n as int)),
            decreases n,
        {
            assert(six[n - 1] == digit_char(d@[n - 1] as int));
            assert(six.subrange(0, n as int).last() == '0');
            assert(six.subrange(0, n as int).drop_last() =~= six.subrange(0, n - 1));
            n -= 1;
        }
        proof {
            if n > 0 {
                assert(six.subrange(0, n as int).last() != '0');
            }
            assert(trim_zeros(six.subrange(0, n as int)) == six.subrange(0, n as int));
        }
        let ghost mid = s@;
        let mut k: usize = 0;
        while k < n
            invariant
                k <= n <= 6,
                d@.len() == 6,
                six.len() == 6,
                forall|j: int| 0 <= j < 6 ==> d@[j] < 10 && six[j] == digit_char(#[trigger] d@[j] as int),
                s@ == mid + six.subrange(0, k as int),
            decreases n - k,
        {
            push_digit(s, d[k]);
            assert(six[k as int] == digit_char(d@[k as int] as int));
            assert(s@ =~= mid + six.subrange(0, k + 1));
            k += 1;
        }
    }
    assert(s@ =~= start + micro_text(v as int));
}

impl AttribValue {
    /// Text form of the value.
    pub fn serialize(&self) -> (r: String)
        ensures
            r@ == value_text(model(*self)),
    {
        let mut s = String::new();
        match self {
            AttribValue::Int(i) => push_int(&mut s, *i as i64),
            AttribValue::Float(f) => push_micro(&mut s, *f),
            AttribValue::Bool(b) => push_char(&mut s, if *b { '1' } else { '0' }),
            AttribValue::Array(a) => {
                let ghost m = a@.map_values(|x: i32| x as int);
                let mut i: usize = 0;
                while i < a.len()
                    invariant
                        i <= a@.len(),
                        m == a@.map_values(|x: i32| x as int),
                        s@ == join_ints(m, i as int),
                    decreases a@.len() - i,
                {
                    if i > 0 {
                        push_char(&mut s, '.');
                    }
                    push_int(&mut s, a[i] as i64);
                    assert(s@ =~= join_ints(m, i + 1));
                    i += 1;
                }
            },
            AttribValue::Hsv { h, s: sat, v, s_checked, v_checked } => {
                push_micro(&mut s, *h);
                push_char(&mut s, 'a');
                push_micro(&mut s, *sat);
                push_char(&mut s, 'a');
                push_micro(&mut s, *v);
                push_char(&mut s, 'a');
                push_char(&mut s, if *s_checked { '1' } else { '0' });
                push_char(&mut s, 'a');
                push_char(&mut s, if *v_checked { '1' } else { '0' });
                assert(s@ =~= value_text(model(*self)));
            },
            AttribValue::Text(t) => {
                s = t.clone();
            },
        }
        s
    }
}

impl Obj {
    /// Text form of the object: `id, value,` for each attribute.
    pub fn as_str(&self) -> (r: String)
        ensures
            r@ == entries_text(self.entries(), self.entries().len() as int),
            entries_wf(self.entries()),
    {
        let mut s = String::new();
        let n = self.len();
        let mut i: usize = 0;
        while i < n
            invariant
                i <= n,
                n == self.entries().len(),
                s@ == entries_text(self.entries(), i as int),
            decreases n - i,
        {
            let e = self.entry(i);
            push_nat(&mut s, e.0.id() as u64);
            push_char(&mut s, ',');
            push_char(&mut s, ' ');
            let v = e.1.serialize();
            let ghost before = s@;
            s.append(v.as_str());
            push_char(&mut s, ',');
            assert(s@ =~= entries_text(self.entries(), i + 1));
            i += 1;
        }
        s
    }
}

proof fn lemma_digit_char(d: int)
    requires
        0 <= d < 10,
    ensures
        is_digit(digit_char(d)),
        digit_val(digit_char(d)) == d,
        digit_char(d) != ',' && digit_char(d) != '.' && digit_char(d) != 'a' && digit_char(d) != '-'
            && !is_ws(digit_char(d)),
{
}

proof fn lemma_nat_text(n: nat)
    ensures
        all_digits(nat_text(n)),
        nat_text(n).len() >= 1,
        digits_value(nat_text(n)) == n,
    decreases n,
{
    if n < 10 {
        lemma_digit_char(n as int);
        assert(nat_text(n).drop_last() =~= Seq::<char>::empty());
        assert(digits_value(Seq::<char>::empty()) == 0);
    } else {
        lemma_nat_text(n / 10);
        lemma_digit_char((n % 10) as int);
        let t = nat_text(n);
        assert(t.drop_last() =~= nat_text(n / 10));
        assert(t.last() == digit_char((n % 10) as int));
        vstd::arithmetic::div_mod::lemma_fundamental_div_mod(n as int, 10);
        assert(digits_value(t) == digits_value(nat_text(n / 10)) * 10 + (n % 10) as int);
        assert forall|i: int| 0 <= i < t.len() implies is_digit(#[trigger] t[i]) by {
            if i < t.len() - 1 {
                assert(t[i] == nat_text(n / 10)[i]);
            }
        }
    }
}

pub open spec fn free_of(s: Seq<char>, c: char) -> bool {
    forall|k: int| 0 <= k < s.len() ==> #[trigger] s[k] != c
}

pub open spec fn no_ws(s: Seq<char>) -> bool {
    forall|k: int| 0 <= k < s.len() ==> !is_ws(#[trigger] s[k])
}

/// Characters that can stand in a value's text without breaking the pair
/// list apart: no comma and no whitespace.
pub open spec fn plain(s: Seq<char>) -> bool {
    free_of(s, ',') && no_ws(s)
}

proof fn lemma_digits_plain(s: Seq<char>)
    requires
        all_digits(s),
    ensures
        plain(s),
        free_of(s, '.'),
        free_of(s, 'a'),
        free_of(s, '-'),
{
}

proof fn lemma_fold_prefix(s: Seq<char>, t: Seq<char>, sep: char, k: int)
    requires
        0 <= k <= s.len(),
        k <= t.len(),
        s.subrange(0, k) == t.subrange(0, k),
    ensures
        split_fold(s, sep, k) == split_fold(t, sep, k),
    decreases k,
{
    if k > 0 {
        assert(s.subrange(0, k - 1) =~= s.subrange(0, k).subrange(0, k - 1));
        assert(t.subrange(0, k - 1) =~= t.subrange(0, k).subrange(0, k - 1));
        lemma_fold_prefix(s, t, sep, k - 1);
        assert(s[k - 1] == s.subrange(0, k)[k - 1]);
        assert(t[k - 1] == t.subrange(0, k)[k - 1]);
    }
}

proof fn lemma_fold_free(x: Seq<char>, sep: char, k: int)
    requires
        0 <= k <= x.len(),
        free_of(x, sep),
    ensures
        split_fold(x, sep, k) == (Seq::<Seq<char>>::empty(), x.subrange(0, k)),
    decreases k,
{
    if k > 0 {
        lemma_fold_free(x, sep, k - 1);
        assert(x.subrange(0, k) =~= x.subrange(0, k - 1).push(x[k - 1]));
    }
}

proof fn lemma_pieces_free(x: Seq<char>, sep: char)
    requires
        free_of(x, sep),
    ensures
        pieces(x, sep) == seq![x],
{
    lemma_fold_free(x, sep, x.len() as int);
    assert(x.subrange(0, x.len() as int) =~= x);
    assert(pieces(x, sep) =~= seq![x]);
}

proof fn lemma_fold_after(x: Seq<char>, y: Seq<char>, sep: char, j: int)
    requires
        0 <= j <= y.len(),
    ensures
        split_fold(x + seq![sep] + y, sep, x.len() + 1 + j) == (pieces(x, sep) + split_fold(y, sep, j).0, split_fold(y, sep, j).1),
    decreases j,
{
    let z = x + seq![sep] + y;
    if j == 0 {
        assert(z.subrange(0, x.len() as int) =~= x.subrange(0, x.len() as int));
        lemma_fold_prefix(z, x, sep, x.len() as int);
        assert(z[x.len() as int] == sep);
        assert(pieces(x, sep) + Seq::<Seq<char>>::empty() =~= pieces(x, sep));
    } else {
        lemma_fold_after(x, y, sep, j - 1);
        assert(z[x.len() + j] == y[j - 1]);
        let (d, c) = split_fold(y, sep, j - 1);
        if y[j - 1] == sep {
            assert(pieces(x, sep) + d.push(c) =~= (pieces(x, sep) + d).push(c));
        }
    }
}

/// Splitting at a separator splits each side on its own.
proof fn lemma_pieces_join(x: Seq<char>, y: Seq<char>, sep: char)
    ensures
        pieces(x + seq![sep] + y, sep) == pieces(x, sep) + pieces(y, sep),
{
    lemma_fold_after(x, y, sep, y.len() as int);
    let z = x + seq![sep] + y;
    assert(z.len() == x.len() + 1 + y.len());
    let (d, c) = split_fold(y, sep, y.len() as int);
    assert((pieces(x, sep) + d).push(c) =~= pieces(x, sep) + d.push(c));
}

proof fn lemma_int_text(i: int)
    requires
        i32::MIN <= i <= i32::MAX,
    ensures
        i32_of(int_text(i)) == Some(i),
        int_text(i).len() >= 1,
        plain(int_text(i)),
        free_of(int_text(i), '.'),
        free_of(int_text(i), 'a'),
{
    if i < 0 {
        lemma_nat_text((-i) as nat);
        let t = int_text(i);
        assert(t.drop_first() =~= nat_text((-i) as nat));
        assert forall|k: int| 0 <= k < t.len() implies t[k] != ',' && !is_ws(t[k]) && t[k] != '.' && t[k] != 'a' by {
            if k > 0 {
                assert(t[k] == nat_text((-i) as nat)[k - 1]);
            }
        }
    } else {
        lemma_nat_text(i as nat);
        assert(is_digit(int_text(i)[0]));
    }
}

proof fn lemma_bit_text(b: bool)
    ensures
        i32_of(bit_text(b)) == Some(if b { 1int } else { 0 }),
        u16_of(bit_text(b)) == Some(if b { 1int } else { 0 }),
        plain(bit_text(b)),
        free_of(bit_text(b), 'a'),
{
    let t = bit_text(b);
    assert(t.drop_last() =~= Seq::<char>::empty());
    assert(digits_value(Seq::<char>::empty()) == 0);
    assert(all_digits(t));
}

proof fn lemma_trim(s: Seq<char>)
    requires
        all_digits(s),
    ensures
        all_digits(trim_zeros(s)),
        trim_zeros(s).len() <= s.len(),
        digits_value(s) == digits_value(trim_zeros(s)) * pow10((s.len() - trim_zeros(s).len()) as nat),
        trim_zeros(s) == s.subrange(0, trim_zeros(s).len() as int),
    decreases s.len(),
{
    if s.len() > 0 && s.last() == '0' {
        let t = s.drop_last();
        assert(all_digits(t)) by {
            assert forall|k: int| 0 <= k < t.len() implies is_digit(#[trigger] t[k]) by {
                assert(t[k] == s[k]);
            }
        }
        lemma_trim(t);
        let tl = trim_zeros(t).len();
        assert(pow10((s.len() - tl) as nat) == 10 * pow10((t.len() - tl) as nat));
        assert(digits_value(s) == digits_value(t) * 10);
        let a = digits_value(trim_zeros(t));
        let b = pow10((t.len() - tl) as nat);
        assert(a * b * 10 == a * (10 * b)) by (nonlinear_arith);
        assert(trim_zeros(t) =~= s.subrange(0, tl as int));
    } else {
        assert(pow10(0) == 1);
        assert(s.subrange(0, s.len() as int) =~= s);
    }
}

proof fn lemma_six_digits(f: int)
    requires
        0 <= f < 1_000_000,
    ensures
        all_digits(six_digits(f)),
        six_digits(f).len() == 6,
        digits_value(six_digits(f)) == f,
{
    let s = six_digits(f);
    let d0 = f / 100000 % 10;
    let d1 = f / 10000 % 10;
    let d2 = f / 1000 % 10;
    let d3 = f / 100 % 10;
    let d4 = f / 10 % 10;
    let d5 = f % 10;
    lemma_digit_char(d0);
    lemma_digit_char(d1);
    lemma_digit_char(d2);
    lemma_digit_char(d3);
    lemma_digit_char(d4);
    lemma_digit_char(d5);
    assert(s.drop_last() =~= seq![digit_char(d0), digit_char(d1), digit_char(d2), digit_char(d3), digit_char(d4)]);
    assert(s.drop_last().drop_last() =~= seq![digit_char(d0), digit_char(d1), digit_char(d2), digit_char(d3)]);
    assert(s.drop_last().drop_last().drop_last() =~= seq![digit_char(d0), digit_char(d1), digit_char(d2)]);
    assert(s.drop_last().drop_last().drop_last().drop_last() =~= seq![digit_char(d0), digit_char(d1)]);
    assert(s.drop_last().drop_last().drop_last().drop_last().drop_last() =~= seq![digit_char(d0)]);
    assert(s.drop_last().drop_last().drop_last().drop_last().drop_last().drop_last() =~= Seq::<char>::empty());
    reveal_with_fuel(digits_value, 7);
    assert(digits_value(s) == ((((d0 * 10 + d1) * 10 + d2) * 10 + d3) * 10 + d4) * 10 + d5);
    assert(((((d0 * 10 + d1) * 10 + d2) * 10 + d3) * 10 + d4) * 10 + d5 == f);
}

proof fn lemma_first_index_append(x: Seq<char>, y: Seq<char>, c: char)
    requires
        free_of(x, c),
    ensures
        first_index(x + y, c) == x.len() + first_index(y, c),
    decreases x.len(),
{
    if x.len() > 0 {
        assert((x + y).drop_first() =~= x.drop_first() + y);
        lemma_first_index_append(x.drop_first(), y, c);
        assert((x + y)[0] == x[0]);
    } else {
        assert(x + y =~= y);
    }
}

proof fn lemma_micro_text(v: int)
    requires
        i64::MIN < v <= i64::MAX,
    ensures
        micro_of(micro_text(v)) == Some(v),
        plain(micro_text(v)),
        free_of(micro_text(v), 'a'),
{
    let u = UNIT as int;
    let m = if v < 0 { -v } else { v };
    let w = m / u;
    let f = m % u;
    vstd::arithmetic::div_mod::lemma_fundamental_div_mod(m, u);
    lemma_nat_text(w as nat);
    let nt = nat_text(w as nat);
    lemma_six_digits(f);
    lemma_trim(six_digits(f));
    let tr = trim_zeros(six_digits(f));
    let tail = if f == 0 { Seq::<char>::empty() } else { seq!['.'] + tr };
    let b = nt + tail;
    lemma_first_index_append(nt, tail, '.');
    assert(first_index(tail, '.') == if f == 0 { 0 } else { 0int });
    assert(b.subrange(0, nt.len() as int) =~= nt);
    if f == 0 {
        assert(b =~= nt);
        assert(unsigned_micro(b) == Some(w * u + 0 * pow10(6))) by {
            let fp = Seq::<char>::empty();
            assert(digits_value(fp) == 0);
        }
    } else {
        assert(b.subrange(nt.len() as int + 1, b.len() as int) =~= tr);
        assert(tr.len() <= 6);
        let a = digits_value(tr);
        let k = pow10((6 - tr.len()) as nat);
        assert(unsigned_micro(b) == Some(w * u + a * k));
        assert(a * k == f);
    }
    assert(unsigned_micro(b) == Some(m));
    assert forall|i: int| 0 <= i < b.len() implies b[i] != ',' && !is_ws(b[i]) && b[i] != 'a' && b[i] != '-' && b[i] != '+' by {
        if i < nt.len() {
            assert(b[i] == nt[i]);
            assert(is_digit(nt[i]));
        } else if i > nt.len() {
            assert(b[i] == tr[i - nt.len() - 1]);
            assert(is_digit(tr[i - nt.len() - 1]));
        }
    }
    if v < 0 {
        assert(micro_text(v) =~= seq!['-'] + b);
        assert((seq!['-'] + b).drop_first() =~= b);
    } else {
        assert(micro_text(v) =~= b);
        assert(is_digit(b[0]));
    }
}

/// Values whose text reads back as themselves: a decimal is above
/// `i64::MIN`, a list is not empty, a text has no comma and no whitespace.
pub open spec fn writable(v: AttribValue) -> bool {
    match v {
        AttribValue::Float(f) => f > i64::MIN,
        AttribValue::Array(a) => a@.len() > 0,
        AttribValue::Hsv { h, s, v, .. } => h > i64::MIN && s > i64::MIN && v > i64::MIN,
        AttribValue::Text(t) => plain(t@),
        _ => true,
    }
}

proof fn lemma_join_ints(a: Seq<int>, k: int)
    requires
        1 <= k <= a.len(),
        forall|i: int| 0 <= i < a.len() ==> i32::MIN <= #[trigger] a[i] <= i32::MAX,
    ensures
        pieces(join_ints(a, k), '.') == a.subrange(0, k).map_values(|x: int| int_text(x)),
        plain(join_ints(a, k)),
        free_of(join_ints(a, k), 'a'),
    decreases k,
{
    lemma_int_text(a[k - 1]);
    lemma_pieces_free(int_text(a[k - 1]), '.');
    if k == 1 {
        assert(a.subrange(0, 1).map_values(|x: int| int_text(x)) =~= seq![int_text(a[0])]);
    } else {
        lemma_join_ints(a, k - 1);
        let x = join_ints(a, k - 1);
        let y = int_text(a[k - 1]);
        lemma_pieces_join(x, y, '.');
        assert(a.subrange(0, k).map_values(|x: int| int_text(x)) =~= a.subrange(0, k - 1).map_values(
            |x: int| int_text(x),
        ) + seq![y]);
        let z = x + seq!['.'] + y;
        assert forall|i: int| 0 <= i < z.len() implies z[i] != ',' && !is_ws(z[i]) && z[i] != 'a' by {
            if i < x.len() {
                assert(z[i] == x[i]);
            } else if i > x.len() {
                assert(z[i] == y[i - x.len() - 1]);
            }
        }
    }
}

proof fn lemma_ints_of(p: Seq<Seq<char>>, a: Seq<int>, k: int)
    requires
        0 <= k <= a.len(),
        p.len() == a.len(),
        forall|i: int| 0 <= i < a.len() ==> i32_of(#[trigger] p[i]) == Some(a[i]),
    ensures
        ints_of(p, k) == Some(a.subrange(0, k)),
    decreases k,
{
    if k > 0 {
        lemma_ints_of(p, a, k - 1);
        assert(a.subrange(0, k) =~= a.subrange(0, k - 1).push(a[k - 1]));
    } else {
        assert(a.subrange(0, 0) =~= Seq::<int>::empty());
    }
}

proof fn lemma_plain_join(x: Seq<char>, y: Seq<char>, c: char)
    requires
        plain(x),
        plain(y),
        c != ',',
        !is_ws(c),
    ensures
        plain(x + seq![c] + y),
{
    let z = x + seq![c] + y;
    assert forall|i: int| 0 <= i < z.len() implies z[i] != ',' && !is_ws(#[trigger] z[i]) by {
        if i < x.len() {
            assert(z[i] == x[i]);
        } else if i > x.len() {
            assert(z[i] == y[i - x.len() - 1]);
        }
    }
}

proof fn lemma_array_text(arr: Vec<i32>)
    requires
        arr@.len() > 0,
    ensures
        value_of(AttribType::Array, value_text(model(AttribValue::Array(arr)))) == Some(
            model(AttribValue::Array(arr)),
        ),
        plain(value_text(model(AttribValue::Array(arr)))),
{
    let a = arr@.map_values(|x: i32| x as int);
    lemma_join_ints(a, a.len() as int);
    let p = pieces(join_ints(a, a.len() as int), '.');
    assert(a.subrange(0, a.len() as int) =~= a);
    assert forall|i: int| 0 <= i < a.len() implies i32_of(#[trigger] p[i]) == Some(a[i]) by {
        lemma_int_text(a[i]);
    }
    lemma_ints_of(p, a, a.len() as int);
}

proof fn lemma_hsv_text(h: i64, s: i64, w: i64, sc: bool, vc: bool)
    requires
        h > i64::MIN,
        s > i64::MIN,
        w > i64::MIN,
    ensures
        ({
            let v = AttribValue::Hsv { h, s, v: w, s_checked: sc, v_checked: vc };
            &&& value_of(AttribType::Hsv, value_text(model(v))) == Some(model(v))
            &&& plain(value_text(model(v)))
        }),
{
    let v = AttribValue::Hsv { h, s, v: w, s_checked: sc, v_checked: vc };
    lemma_micro_text(h as int);
    lemma_micro_text(s as int);
    lemma_micro_text(w as int);
    lemma_bit_text(sc);
    lemma_bit_text(vc);
    let a = micro_text(h as int);
    let b = micro_text(s as int);
    let c = micro_text(w as int);
    let d = bit_text(sc);
    let e = bit_text(vc);
    lemma_pieces_free(a, 'a');
    lemma_pieces_free(b, 'a');
    lemma_pieces_free(c, 'a');
    lemma_pieces_free(d, 'a');
    lemma_pieces_free(e, 'a');
    let ab = a + seq!['a'] + b;
    let abc = ab + seq!['a'] + c;
    let abcd = abc + seq!['a'] + d;
    let all = abcd + seq!['a'] + e;
    lemma_pieces_join(a, b, 'a');
    lemma_pieces_join(ab, c, 'a');
    lemma_pieces_join(abc, d, 'a');
    lemma_pieces_join(abcd, e, 'a');
    lemma_plain_join(a, b, 'a');
    lemma_plain_join(ab, c, 'a');
    lemma_plain_join(abc, d, 'a');
    lemma_plain_join(abcd, e, 'a');
    let p = pieces(all, 'a');
    assert(p =~= seq![a, b, c, d, e]);
    assert(p.len() == 5 && p[0] == a && p[1] == b && p[2] == c && p[3] == d && p[4] == e);
    assert(value_text(model(v)) == all);
}

/// A written value reads back as itself.
proof fn lemma_value_text(v: AttribValue)
    requires
        writable(v),
    ensures
        value_of(v.spec_type(), value_text(model(v))) == Some(model(v)),
        plain(value_text(model(v))),
{
    match v {
        AttribValue::Int(i) => {
            lemma_int_text(i as int);
        },
        AttribValue::Float(f) => {
            lemma_micro_text(f as int);
        },
        AttribValue::Bool(b) => {
            lemma_bit_text(b);
        },
        AttribValue::Array(arr) => {
            lemma_array_text(arr);
        },
        AttribValue::Hsv { h, s, v: w, s_checked, v_checked } => {
            lemma_hsv_text(h, s, w, s_checked, v_checked);
        },
        AttribValue::Text(t) => {},
    }
}

proof fn lemma_fold_extend(t: Seq<char>, y: Seq<char>, sep: char, j: int)
    requires
        0 <= j <= y.len(),
        free_of(y, sep),
    ensures
        split_fold(t + y, sep, t.len() + j) == (split_fold(t, sep, t.len() as int).0, split_fold(t, sep, t.len() as int).1 + y.subrange(0, j)),
    decreases j,
{
    if j == 0 {
        assert((t + y).subrange(0, t.len() as int) =~= t.subrange(0, t.len() as int));
        lemma_fold_prefix(t + y, t, sep, t.len() as int);
        assert(split_fold(t, sep, t.len() as int).1 + y.subrange(0, 0) =~= split_fold(t, sep, t.len() as int).1);
    } else {
        lemma_fold_extend(t, y, sep, j - 1);
        assert((t + y)[t.len() + j - 1] == y[j - 1]);
        assert(split_fold(t, sep, t.len() as int).1 + y.subrange(0, j) =~= (split_fold(t, sep, t.len() as int).1 + y.subrange(0, j - 1)).push(y[j - 1]));
    }
}

proof fn lemma_strip_plain(x: Seq<char>)
    requires
        no_ws(x),
    ensures
        strip(x) == x,
    decreases x.len(),
{
    if x.len() > 0 {
        lemma_strip_plain(x.drop_last());
        assert(x.drop_last().push(x.last()) =~= x);
    }
}

proof fn lemma_strip_space(x: Seq<char>)
    ensures
        strip(seq![' '] + x) == strip(x),
    decreases x.len(),
{
    if x.len() > 0 {
        assert((seq![' '] + x).drop_last() =~= seq![' '] + x.drop_last());
        assert((seq![' '] + x).last() == x.last());
        lemma_strip_space(x.drop_last());
    } else {
        assert(seq![' '] + x =~= seq![' ']);
        assert(seq![' '].drop_last() =~= Seq::<char>::empty());
        assert(is_ws(' '));
        assert(strip(Seq::<char>::empty()) == Seq::<char>::empty());
        assert(strip(seq![' ']) == strip(Seq::<char>::empty()));
    }
}

/// Text of entry `i` split into its key piece and its value piece.
pub open spec fn key_piece(e: Seq<(AttribKey, AttribValue)>, i: int) -> Seq<char> {
    nat_text(e[i].0.spec_id() as nat)
}

pub open spec fn value_piece(e: Seq<(AttribKey, AttribValue)>, i: int) -> Seq<char> {
    seq![' '] + value_text(model(e[i].1))
}

#[verifier::spinoff_prover]
#[verifier::rlimit(50)]
proof fn lemma_entries_pieces(e: Seq<(AttribKey, AttribValue)>, k: int)
    requires
        0 <= k <= e.len(),
        forall|i: int| 0 <= i < e.len() ==> writable(#[trigger] e[i].1),
    ensures
        ({
            let p = pieces(entries_text(e, k), ',');
            &&& p.len() == 2 * k + 1
            &&& p[2 * k] == Seq::<char>::empty()
            &&& forall|i: int| 0 <= i < k ==> p[2 * i] == #[trigger] key_piece(e, i) && p[2 * i + 1] == value_piece(e, i)
        }),
    decreases k,
{
    if k == 0 {
        assert(entries_text(e, 0) =~= Seq::<char>::empty());
        lemma_pieces_free(Seq::<char>::empty(), ',');
    } else {
        lemma_entries_pieces(e, k - 1);
        let t = entries_text(e, k - 1);
        let pt = pieces(t, ',');
        assert(forall|i: int| 0 <= i < k - 1 ==> pt[2 * i] == #[trigger] key_piece(e, i) && pt[2 * i + 1] == value_piece(e, i));
        let nt = key_piece(e, k - 1);
        let vt = value_text(model(e[k - 1].1));
        let c = value_piece(e, k - 1);
        lemma_nat_text(e[k - 1].0.spec_id() as nat);
        lemma_digits_plain(nt);
        lemma_value_text(e[k - 1].1);
        lemma_fold_extend(t, nt, ',', nt.len() as int);
        assert(nt.subrange(0, nt.len() as int) =~= nt);
        let (d0, c0) = split_fold(t, ',', t.len() as int);
        assert(pt == d0.push(c0));
        assert(c0 == Seq::<char>::empty());
        assert(c0 + nt =~= nt);
        let tn = t + nt;
        assert(pieces(tn, ',') == d0.push(nt));
        assert(free_of(c, ',')) by {
            assert forall|i: int| 0 <= i < c.len() implies c[i] != ',' by {
                if i > 0 {
                    assert(c[i] == vt[i - 1]);
                }
            }
        }
        lemma_pieces_free(c, ',');
        lemma_pieces_free(Seq::<char>::empty(), ',');
        lemma_pieces_join(c, Seq::<char>::empty(), ',');
        let rest = c + seq![','] + Seq::<char>::empty();
        lemma_pieces_join(tn, rest, ',');
        assert(entries_text(e, k) =~= tn + seq![','] + rest);
        let p = pieces(entries_text(e, k), ',');
        assert(p =~= d0.push(nt) + seq![c, Seq::<char>::empty()]);
        assert(d0.len() == 2 * (k - 1));
        assert(c0 == Seq::<char>::empty());
        lemma_extend_pieces(e, pt, d0, nt, c, k);
    }
}

proof fn lemma_extend_pieces(
    e: Seq<(AttribKey, AttribValue)>,
    pt: Seq<Seq<char>>,
    d0: Seq<Seq<char>>,
    nt: Seq<char>,
    c: Seq<char>,
    k: int,
)
    requires
        k >= 1,
        pt == d0.push(Seq::<char>::empty()),
        d0.len() == 2 * (k - 1),
        forall|i: int| 0 <= i < k - 1 ==> pt[2 * i] == #[trigger] key_piece(e, i) && pt[2 * i + 1] == value_piece(e, i),
        nt == key_piece(e, k - 1),
        c == value_piece(e, k - 1),
    ensures
        ({
            let p = d0.push(nt) + seq![c, Seq::<char>::empty()];
            &&& p.len() == 2 * k + 1
            &&& p[2 * k] == Seq::<char>::empty()
            &&& forall|i: int| 0 <= i < k ==> p[2 * i] == #[trigger] key_piece(e, i) && p[2 * i + 1] == value_piece(e, i)
        }),
{
    let p = d0.push(nt) + seq![c, Seq::<char>::empty()];
    assert forall|i: int| 0 <= i < k implies p[2 * i] == #[trigger] key_piece(e, i) && p[2 * i + 1] == value_piece(e, i) by {
        if i < k - 1 {
            assert(pt[2 * i] == key_piece(e, i));
            assert(p[2 * i] == d0[2 * i]);
            assert(p[2 * i + 1] == d0[2 * i + 1]);
        }
    }
}

proof fn lemma_map_of_step(e: Seq<(AttribKey, AttribValue)>, k: int)
    requires
        1 <= k <= e.len(),
    ensures
        map_of(e.subrange(0, k)).map_values(|v: AttribValue| model(v)) == map_of(e.subrange(0, k - 1)).map_values(
            |v: AttribValue| model(v),
        ).insert(e[k - 1].0, model(e[k - 1].1)),
{
    let s = e.subrange(0, k);
    assert(s.drop_last() =~= e.subrange(0, k - 1));
    assert(s.last() == e[k - 1]);
    assert(map_of(s).map_values(|v: AttribValue| model(v)) =~= map_of(e.subrange(0, k - 1)).map_values(
        |v: AttribValue| model(v),
    ).insert(e[k - 1].0, model(e[k - 1].1)));
}

proof fn lemma_parse_entries(e: Seq<(AttribKey, AttribValue)>, p: Seq<Seq<char>>, k: int)
    requires
        0 <= k <= e.len(),
        entries_wf(e),
        forall|i: int| 0 <= i < e.len() ==> writable(#[trigger] e[i].1),
        p.len() >= 2 * e.len(),
        forall|i: int| 0 <= i < e.len() ==> p[2 * i] == #[trigger] key_piece(e, i) && p[2 * i + 1] == value_piece(e, i),
    ensures
        parse_pairs(p, k) == Ok::<Map<AttribKey, ValueModel>, AttribKey>(
            map_of(e.subrange(0, k)).map_values(|v: AttribValue| model(v)),
        ),
    decreases k,
{
    if k == 0 {
        assert(map_of(e.subrange(0, 0)).map_values(|v: AttribValue| model(v)) =~= Map::<AttribKey, ValueModel>::empty());
    } else {
        lemma_parse_entries(e, p, k - 1);
        let i = k - 1;
        assert(p[2 * i] == key_piece(e, i));
        let nt = key_piece(e, i);
        let id = e[i].0.spec_id();
        lemma_nat_text(id as nat);
        lemma_digits_plain(nt);
        lemma_strip_plain(nt);
        assert(is_digit(nt[0]));
        assert(u16_of(nt) == Some(id as int));
        lemma_key_ids(e[i].0);
        lemma_value_text(e[i].1);
        let vt = value_text(model(e[i].1));
        lemma_strip_space(vt);
        lemma_strip_plain(vt);
        assert(e[i].0.spec_type() == e[i].1.spec_type());
        lemma_map_of_step(e, k);
    }
}

/// Writing attributes out and reading them back gives the same attributes:
/// for every well-formed attribute list whose values have a text form
/// (`writable`: which every value read from text has), reading the text
/// that `Obj::as_str` writes gives exactly the list's attribute map.
pub proof fn lemma_attribute_round_trip(e: Seq<(AttribKey, AttribValue)>)
    requires
        entries_wf(e),
        forall|i: int| 0 <= i < e.len() ==> writable(#[trigger] e[i].1),
    ensures
        parse_obj(entries_text(e, e.len() as int)) == Ok::<Map<AttribKey, ValueModel>, AttribKey>(
            map_of(e).map_values(|v: AttribValue| model(v)),
        ),
{
    let n = e.len() as int;
    lemma_entries_pieces(e, n);
    let p = pieces(entries_text(e, n), ',');
    lemma_parse_entries(e, p, n);
    assert(e.subrange(0, n) =~= e);
    assert(p.len() as int / 2 == n);
}

proof fn lemma_pieces_nonempty(s: Seq<char>, sep: char)
    ensures
        pieces(s, sep).len() >= 1,
{
}

proof fn lemma_fold_free_of_sep(s: Seq<char>, sep: char, k: int)
    requires
        0 <= k <= s.len(),
    ensures
        forall|j: int| 0 <= j < split_fold(s, sep, k).0.len() ==> free_of(#[trigger] split_fold(s, sep, k).0[j], sep),
        free_of(split_fold(s, sep, k).1, sep),
    decreases k,
{
    if k > 0 {
        lemma_fold_free_of_sep(s, sep, k - 1);
        let (d, c) = split_fold(s, sep, k - 1);
        if s[k - 1] != sep {
            assert forall|i: int| 0 <= i < c.push(s[k - 1]).len() implies #[trigger] c.push(s[k - 1])[i] != sep by {
                if i < c.len() {
                    assert(c.push(s[k - 1])[i] == c[i]);
                }
            }
        } else {
            assert forall|j: int| 0 <= j < d.push(c).len() implies free_of(#[trigger] d.push(c)[j], sep) by {
                if j < d.len() {
                    assert(d.push(c)[j] == d[j]);
                }
            }
        }
    }
}

/// No piece holds the separator.
proof fn lemma_pieces_free_of_sep(s: Seq<char>, sep: char)
    ensures
        forall|j: int| 0 <= j < pieces(s, sep).len() ==> free_of(#[trigger] pieces(s, sep)[j], sep),
{
    lemma_fold_free_of_sep(s, sep, s.len() as int);
    let (d, c) = split_fold(s, sep, s.len() as int);
    assert forall|j: int| 0 <= j < d.push(c).len() implies free_of(#[trigger] d.push(c)[j], sep) by {
        if j < d.len() {
            assert(d.push(c)[j] == d[j]);
        }
    }
}

/// Stripping leaves no whitespace and brings in no other character.
proof fn lemma_strip_props(x: Seq<char>, c: char)
    ensures
        no_ws(strip(x)),
        free_of(x, c) ==> free_of(strip(x), c),
    decreases x.len(),
{
    if x.len() > 0 {
        lemma_strip_props(x.drop_last(), c);
        if free_of(x, c) {
            assert(free_of(x.drop_last(), c)) by {
                assert forall|k: int| 0 <= k < x.drop_last().len() implies #[trigger] x.drop_last()[k] != c by {
                    assert(x.drop_last()[k] == x[k]);
                }
            }
        }
        let t = strip(x.drop_last());
        if !is_ws(x.last()) {
            assert forall|k: int| 0 <= k < t.push(x.last()).len() implies !is_ws(#[trigger] t.push(x.last())[k]) by {
                if k < t.len() {
                    assert(t.push(x.last())[k] == t[k]);
                }
            }
            if free_of(x, c) {
                assert forall|k: int| 0 <= k < t.push(x.last()).len() implies #[trigger] t.push(x.last())[k] != c by {
                    if k < t.len() {
                        assert(t.push(x.last())[k] == t[k]);
                    }
                }
            }
        }
    }
}

/// What `Obj::parse` reads from the text that `Obj::as_str` writes of an
/// object read from text is that object's attribute map again.
pub proof fn lemma_parsed_round_trip(e: Seq<(AttribKey, AttribValue)>)
    requires
        entries_wf(e),
        forall|k: AttribKey| #[trigger] map_of(e).contains_key(k) ==> writable(map_of(e)[k]),
    ensures
        parse_obj(entries_text(e, e.len() as int)) == Ok::<Map<AttribKey, ValueModel>, AttribKey>(
            map_of(e).map_values(|v: AttribValue| model(v)),
        ),
{
    assert forall|i: int| 0 <= i < e.len() implies writable(#[trigger] e[i].1) by {
        crate::object::lemma_lookup_found(e, i);
        assert(map_of(e).contains_key(e[i].0));
    }
    lemma_attribute_round_trip(e);
}

} // verus!
