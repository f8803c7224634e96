//! Text helpers: dotted column paths, decimal numbers, and the order of strings.

use vstd::arithmetic::power::pow;
use vstd::prelude::*;

verus! {

/// The contents of a list of strings.
pub open spec fn texts(strings: Seq<String>) -> Seq<Seq<char>> {
    strings.map_values(|s: String| s@)
}

/// The dotted path that starts at `top` and goes through `rest`.
pub open spec fn joined(top: Seq<char>, rest: Seq<Seq<char>>) -> Seq<char>
    decreases rest.len(),
{
    if rest.len() == 0 {
        top
    } else {
        joined(top, rest.drop_last()) + seq!['.'] + rest.last()
    }
}

/// The parts in order, with `separator` between each two neighbours.
pub open spec fn separated(parts: Seq<Seq<char>>, separator: Seq<char>) -> Seq<char>
    decreases parts.len(),
{
    if parts.len() == 0 {
        Seq::empty()
    } else if parts.len() == 1 {
        parts[0]
    } else {
        separated(parts.drop_last(), separator) + separator + parts.last()
    }
}

/// The segments of a dotted path, in order. There is always at least one; a path without a dot
/// is its own only segment.
pub open spec fn segments(path: Seq<char>) -> Seq<Seq<char>>
    decreases path.len(),
{
    if path.len() == 0 {
        seq![Seq::<char>::empty()]
    } else {
        let init = segments(path.drop_last());
        if path.last() == '.' {
            init.push(Seq::empty())
        } else {
            init.drop_last().push(init.last().push(path.last()))
        }
    }
}

/// Whether `c` is an ASCII decimal digit.
pub open spec fn is_digit(c: char) -> bool {
    '0' <= c && c <= '9'
}

/// Whether `s` holds decimal digits alone.
pub open spec fn all_digits(s: Seq<char>) -> bool {
    forall|i: int| 0 <= i < s.len() ==> is_digit(#[trigger] s[i])
}

/// What is left of `s` behind its sign, if it has one.
pub open spec fn unsigned_part(s: Seq<char>) -> Seq<char> {
    if s.len() > 0 && (s[0] == '-' || s[0] == '+') {
        s.skip(1)
    } else {
        s
    }
}

/// The number that a run of decimal digits denotes.
pub open spec fn decimal_value(digits: Seq<char>) -> nat
    decreases digits.len(),
{
    if digits.len() == 0 {
        0
    } else {
        10 * decimal_value(digits.drop_last()) + (digits.last() as nat - '0' as nat) as nat
    }
}

/// The 32-bit integer that `s` spells: an optional sign, then at least one decimal digit and
/// nothing else, with a value that fits.
pub open spec fn parsed_i32(s: Seq<char>) -> Option<i32> {
    let digits = unsigned_part(s);
    let value: int = if s.len() > 0 && s[0] == '-' {
        -(decimal_value(digits) as int)
    } else {
        decimal_value(digits) as int
    };
    if digits.len() > 0 && all_digits(digits) && i32::MIN <= value <= i32::MAX {
        Some(value as i32)
    } else {
        None
    }
}

/// The decimal digit that denotes `n`, for `n` below ten.
pub open spec fn digit(n: nat) -> char {
    (n + '0' as nat) as char
}

/// The decimal notation of `n`, without leading zeros.
pub open spec fn decimal_digits(n: nat) -> Seq<char>
    decreases n,
{
    if n < 10 {
        seq![digit(n)]
    } else {
        decimal_digits(n / 10).push(digit(n % 10))
    }
}

/// The decimal notation of `n`, with a sign in front where `n` is negative.
pub open spec fn signed_digits(n: int) -> Seq<char> {
    if n < 0 {
        seq!['-'] + decimal_digits((-n) as nat)
    } else {
        decimal_digits(n as nat)
    }
}

/// Whether `a` comes before `b` in the order of strings: character by character, and a string
/// before its continuations.
pub open spec fn text_before(a: Seq<char>, b: Seq<char>) -> bool
    decreases a.len(),
{
    b.len() > 0 && (a.len() == 0 || a[0] < b[0] || (a[0] == b[0] && text_before(
        a.drop_first(),
        b.drop_first(),
    )))
}

/// Whether two strings hold the same characters.
pub fn same_text(a: &str, b: &str) -> (r: bool)
    ensures
        r == (a@ == b@),
{
    a.to_owned() == b.to_owned()
}

/// A copy of a list of strings.
pub fn copy_texts(a: &Vec<String>) -> (r: Vec<String>)
    ensures
        r@ == a@,
{
    let mut out: Vec<String> = Vec::new();
    let mut i: usize = 0;
    while i < a.len()
        invariant
            i <= a.len(),
            out@ == a@.take(i as int),
        decreases a.len() - i,
    {
        out.push(a[i].clone());
        i += 1;
        assert(out@ =~= a@.take(i as int));
    }
    assert(out@ =~= a@);
    out
}

/// Joins `top_level` and the segments of `rest` into one dotted path.
pub fn prefix_with_field_name(top_level: &str, rest: &Vec<String>) -> (r: String)
    ensures
        r@ == joined(top_level@, texts(rest@)),
{
    let mut out: String = top_level.to_owned();
    let mut i: usize = 0;
    assert(texts(rest@).take(0) =~= Seq::<Seq<char>>::empty());
    while i < rest.len()
        invariant
            i <= rest.len(),
            out@ == joined(top_level@, texts(rest@).take(i as int)),
        decreases rest.len() - i,
    {
        let ghost upto = texts(rest@).take(i + 1);
        out.append(".");
        out.append(rest[i].as_str());
        proof {
            reveal_strlit(".");
            assert("."@ =~= seq!['.']);
            assert(upto.drop_last() =~= texts(rest@).take(i as int));
            assert(upto.last() == rest@[i as int]@);
        }
        i += 1;
    }
    assert(texts(rest@).take(rest.len() as int) =~= texts(rest@));
    out
}

/// Joins strings, with `separator` between each two neighbours.
pub fn join_texts(parts: &Vec<String>, separator: &str) -> (r: String)
    ensures
        r@ == separated(texts(parts@), separator@),
{
    let mut out: String = "".to_owned();
    let mut i: usize = 0;
    proof {
        reveal_strlit("");
        assert(texts(parts@).take(0) =~= Seq::<Seq<char>>::empty());
        assert(out@ =~= Seq::<char>::empty());
    }
    while i < parts.len()
        invariant
            i <= parts.len(),
            out@ == separated(texts(parts@).take(i as int), separator@),
        decreases parts.len() - i,
    {
        let ghost upto = texts(parts@).take(i + 1);
        proof {
            assert(upto.drop_last() =~= texts(parts@).take(i as int));
            assert(upto.last() == parts@[i as int]@);
        }
        if i > 0 {
            out.append(separator);
        }
        out.append(parts[i].as_str());
        assert(out@ =~= separated(upto, separator@));
        i += 1;
    }
    assert(texts(parts@).take(parts.len() as int) =~= texts(parts@));
    out
}

proof fn lemma_decimal_value_grows(digits: Seq<char>, i: int)
    requires
        0 <= i <= digits.len(),
        all_digits(digits),
    ensures
        decimal_value(digits.take(i)) <= decimal_value(digits),
    decreases digits.len() - i,
{
    if i < digits.len() {
        let next = digits.take(i + 1);
        assert(next.drop_last() =~= digits.take(i));
        lemma_decimal_value_grows(digits, i + 1);
    } else {
        assert(digits.take(i) =~= digits);
    }
}

/// Parses a 32-bit integer in decimal notation.
pub fn parse_i32(s: &str) -> (r: Option<i32>)
    ensures
        r == parsed_i32(s@),
{
    let n: usize = s.unicode_len();
    if n == 0 {
        return None;
    }
    let first: char = s.get_char(0);
    let signed: bool = first == '-' || first == '+';
    let start: usize = if signed {
        1
    } else {
        0
    };
    let ghost digits = unsigned_part(s@);
    if start == n {
        return None;
    }
    let mut value: u64 = 0;
    let mut i: usize = start;
    assert(digits.take(0) =~= Seq::<char>::empty());
    while i < n
        invariant
            n == s@.len(),
            start <= 1,
            start <= i <= n,
            signed == (s@[0] == '-' || s@[0] == '+'),
            n > 0,
            start == (if signed {
                1int
            } else {
                0int
            }),
            digits == unsigned_part(s@),
            digits.len() == n - start,
            value == decimal_value(digits.take(i - start)),
            value <= 2147483648,
            forall|k: int| 0 <= k < i - start ==> is_digit(#[trigger] digits[k]),
        decreases n - i,
    {
        let c: char = s.get_char(i);
        let ghost k = i - start;
        assert(digits[k] == c);
        if c < '0' || c > '9' {
            assert(!is_digit(digits[k]) && 0 <= k < digits.len());
            return None;
        }
        let d: u64 = (c as u32 - '0' as u32) as u64;
        proof {
            let next = digits.take(k + 1);
            assert(next.drop_last() =~= digits.take(k));
            assert(next.last() == c);
        }
        value = value * 10 + d;
        i += 1;
        if value > 2147483648 {
            proof {
                if all_digits(digits) {
                    lemma_decimal_value_grows(digits, i - start);
                    assert(decimal_value(digits) > 2147483648);
                }
            }
            return None;
        }
    }
    assert(digits.take(n - start) =~= digits);
    if first == '-' {
        Some((-(value as i64)) as i32)
    } else if value == 2147483648 {
        None
    } else {
        Some(value as i32)
    }
}

/// The decimal notation of `n`.
pub fn decimal(n: usize) -> (r: String)
    ensures
        r@ == decimal_digits(n as nat),
    decreases n,
{
    let last: &str = digit_text(n % 10);
    if n < 10 {
        last.to_owned()
    } else {
        let mut out: String = decimal(n / 10);
        out.append(last);
        assert(out@ =~= decimal_digits((n / 10) as nat).push(digit((n % 10) as nat)));
        out
    }
}

/// The decimal notation of `n`, with a sign in front where `n` is negative.
pub fn signed_decimal(n: i32) -> (r: String)
    ensures
        r@ == signed_digits(n as int),
{
    if n < 0 {
        let mut out: String = "-".to_owned();
        proof {
            reveal_strlit("-");
            assert("-"@ =~= seq!['-']);
        }
        out.append(decimal((-(n as i64)) as usize).as_str());
        out
    } else {
        decimal(n as usize)
    }
}

/// Whether `a` comes before `b` in the order of strings.
pub fn comes_before(a: &str, b: &str) -> (r: bool)
    ensures
        r == text_before(a@, b@),
{
    let n: usize = a.unicode_len();
    let m: usize = b.unicode_len();
    let mut i: usize = 0;
    assert(a@.skip(0) =~= a@ && b@.skip(0) =~= b@);
    while i < n && i < m
        invariant
            n == a@.len(),
            m == b@.len(),
            i <= n,
            i <= m,
            text_before(a@, b@) == text_before(a@.skip(i as int), b@.skip(i as int)),
        decreases n - i,
    {
        let c: char = a.get_char(i);
        let d: char = b.get_char(i);
        proof {
            assert(a@.skip(i as int)[0] == c);
            assert(b@.skip(i as int)[0] == d);
            assert(a@.skip(i as int).drop_first() =~= a@.skip(i + 1));
            assert(b@.skip(i as int).drop_first() =~= b@.skip(i + 1));
        }
        if c != d {
            return c < d;
        }
        i += 1;
    }
    i < m
}

/// No string comes before itself.
pub proof fn lemma_text_not_before_itself(a: Seq<char>)
    ensures
        !text_before(a, a),
    decreases a.len(),
{
    if a.len() > 0 {
        lemma_text_not_before_itself(a.drop_first());
    }
}

/// What comes before a string comes before all that come after that.
pub proof fn lemma_text_before_transitive(a: Seq<char>, b: Seq<char>, c: Seq<char>)
    requires
        text_before(a, b),
        text_before(b, c),
    ensures
        text_before(a, c),
    decreases a.len(),
{
    if a.len() > 0 && a[0] == b[0] && b[0] == c[0] {
        lemma_text_before_transitive(a.drop_first(), b.drop_first(), c.drop_first());
    }
}

/// Of two different strings one comes before the other.
pub proof fn lemma_text_before_total(a: Seq<char>, b: Seq<char>)
    requires
        a != b,
    ensures
        text_before(a, b) || text_before(b, a),
    decreases a.len(),
{
    if a.len() == 0 || b.len() == 0 {
        if a.len() == 0 && b.len() == 0 {
            assert(a =~= b);
        }
    } else if a[0] == b[0] {
        if a.drop_first() == b.drop_first() {
            assert(a =~= seq![a[0]] + a.drop_first());
            assert(b =~= seq![b[0]] + b.drop_first());
        } else {
            lemma_text_before_total(a.drop_first(), b.drop_first());
        }
    }
}

fn digit_text(n: usize) -> (r: &'static str)
    requires
        n < 10,
    ensures
        r@ == seq![digit(n as nat)],
{
    proof {
        reveal_strlit("0");
        reveal_strlit("1");
        reveal_strlit("2");
        reveal_strlit("3");
        reveal_strlit("4");
        reveal_strlit("5");
        reveal_strlit("6");
        reveal_strlit("7");
        reveal_strlit("8");
        reveal_strlit("9");
    }
    let r: &'static str = match n {
        0 => "0",
        1 => "1",
        2 => "2",
        3 => "3",
        4 => "4",
        5 => "5",
        6 => "6",
        7 => "7",
        8 => "8",
        _ => "9",
    };
    assert(r@ =~= seq![digit(n as nat)]);
    r
}

/// Whether a text has no dot, so that it can be one segment of a dotted path.
pub open spec fn is_segment(s: Seq<char>) -> bool {
    forall|i: int| 0 <= i < s.len() ==> #[trigger] s[i] != '.'
}

/// A dotted path has at least one segment.
proof fn lemma_segments_nonempty(path: Seq<char>)
    ensures
        segments(path).len() > 0,
    decreases path.len(),
{
    if path.len() > 0 {
        lemma_segments_nonempty(path.drop_last());
    }
}

proof fn lemma_segments_of_longer(path: Seq<char>, more: Seq<char>)
    requires
        is_segment(more),
    ensures
        segments(path + more) == segments(path).drop_last().push(segments(path).last() + more),
    decreases more.len(),
{
    lemma_segments_nonempty(path);
    let init = segments(path);
    if more.len() == 0 {
        assert(path + more =~= path);
        assert(init.last() + more =~= init.last());
        assert(init.drop_last().push(init.last()) =~= init);
    } else {
        let shorter = more.drop_last();
        assert((path + more).drop_last() =~= path + shorter);
        assert(more[more.len() - 1] != '.');
        assert forall|i: int| 0 <= i < shorter.len() implies #[trigger] shorter[i] != '.' by {
            assert(shorter[i] == more[i]);
        }
        lemma_segments_of_longer(path, shorter);
        let before = segments(path + shorter);
        assert(before.drop_last() =~= init.drop_last());
        assert((init.last() + shorter).push(more.last()) =~= init.last() + more);
    }
}

/// Splitting a dotted path gives back the segments that it was joined from, if none of them has a
/// dot in it.
pub proof fn law_segments_of_a_joined_path(top: Seq<char>, rest: Seq<Seq<char>>)
    requires
        is_segment(top),
        forall|i: int| 0 <= i < rest.len() ==> is_segment(#[trigger] rest[i]),
    ensures
        segments(joined(top, rest)) == seq![top] + rest,
    decreases rest.len(),
{
    let empty = Seq::<char>::empty();
    if rest.len() == 0 {
        lemma_segments_of_longer(empty, top);
        assert(empty + top =~= top);
        assert(segments(empty).drop_last() =~= Seq::<Seq<char>>::empty());
        assert(segments(top) =~= seq![top] + rest);
    } else {
        let shorter = rest.drop_last();
        let last = rest.last();
        assert forall|i: int| 0 <= i < shorter.len() implies is_segment(#[trigger] shorter[i]) by {
            assert(shorter[i] == rest[i]);
        }
        law_segments_of_a_joined_path(top, shorter);
        let before = joined(top, shorter);
        let dotted = before + seq!['.'];
        assert(dotted.drop_last() =~= before);
        assert(segments(dotted) == segments(before).push(empty));
        assert(is_segment(rest[rest.len() - 1]));
        lemma_segments_of_longer(dotted, last);
        assert(empty + last =~= last);
        assert(segments(before).push(empty).drop_last() =~= segments(before));
        assert(segments(joined(top, rest)) =~= seq![top] + rest);
    }
}

/// A dotted path can be joined in parts, one segment after the other: a dot stands before each
/// further segment, and nowhere else.
pub proof fn law_path_is_joined_in_parts(top: Seq<char>, a: Seq<Seq<char>>, b: Seq<Seq<char>>)
    ensures
        joined(top, a + b) == joined(joined(top, a), b),
        joined(top, Seq::<Seq<char>>::empty()) == top,
        forall|segment: Seq<char>| #[trigger]
            joined(top, seq![segment]) == top + seq!['.'] + segment,
    decreases b.len(),
{
    if b.len() == 0 {
        assert(a + b =~= a);
    } else {
        law_path_is_joined_in_parts(top, a, b.drop_last());
        assert((a + b).drop_last() =~= a + b.drop_last());
    }
    assert forall|segment: Seq<char>| #[trigger]
        joined(top, seq![segment]) == top + seq!['.'] + segment by {
        let one = seq![segment];
        assert(one.drop_last() =~= Seq::<Seq<char>>::empty());
        assert(joined(top, one.drop_last()) == top);
    }
}

/// Joining the segments of a dotted path gives back the path, and no segment has a dot in it.
pub proof fn law_segments_join_to_the_path(path: Seq<char>)
    ensures
        segments(path).len() > 0,
        joined(segments(path)[0], segments(path).drop_first()) == path,
        forall|i: int| 0 <= i < segments(path).len() ==> is_segment(#[trigger] segments(path)[i]),
    decreases path.len(),
{
    let all = segments(path);
    if path.len() > 0 {
        let shorter = path.drop_last();
        let init = segments(shorter);
        law_segments_join_to_the_path(shorter);
        assert(path =~= shorter.push(path.last()));
        if path.last() == '.' {
            assert(all[0] == init[0]);
            assert(all.drop_first().drop_last() =~= init.drop_first());
            assert(all.drop_first().last() =~= Seq::<char>::empty());
            assert(joined(all[0], all.drop_first()) =~= path);
            assert forall|i: int| 0 <= i < all.len() implies is_segment(#[trigger] all[i]) by {
                if i < init.len() {
                    assert(all[i] == init[i]);
                }
            }
        } else {
            let last = init[init.len() - 1];
            assert(is_segment(last));
            assert(all.last() == last.push(path.last()));
            assert forall|i: int| 0 <= i < all.len() implies is_segment(#[trigger] all[i]) by {
                if i < init.len() - 1 {
                    assert(all[i] == init[i]);
                } else {
                    assert forall|k: int| 0 <= k < all[i].len() implies #[trigger] all[i][k]
                        != '.' by {
                        if k < last.len() {
                            assert(all[i][k] == last[k]);
                        }
                    }
                }
            }
            if init.len() == 1 {
                assert(all.drop_first() =~= Seq::<Seq<char>>::empty());
                assert(init.drop_first() =~= Seq::<Seq<char>>::empty());
            } else {
                let a = init.drop_first();
                let b = all.drop_first();
                assert(a.drop_last() =~= b.drop_last());
                assert(a.last() == last && b.last() == last.push(path.last()));
                assert(all[0] == init[0]);
                assert(joined(all[0], b) =~= path);
            }
        }
    } else {
        assert(all.drop_first() =~= Seq::<Seq<char>>::empty());
        assert(all[0] =~= path);
    }
}

/// The separator stands between two runs of parts, and nothing stands before the first part or
/// behind the last.
pub proof fn law_parts_are_separated(a: Seq<Seq<char>>, b: Seq<Seq<char>>, separator: Seq<char>)
    ensures
        a.len() > 0 && b.len() > 0 ==> separated(a + b, separator) == separated(a, separator)
            + separator + separated(b, separator),
        separated(Seq::<Seq<char>>::empty(), separator) == Seq::<char>::empty(),
        forall|part: Seq<char>| #[trigger] separated(seq![part], separator) == part,
    decreases b.len(),
{
    if a.len() > 0 && b.len() > 0 {
        assert((a + b).drop_last() =~= a + b.drop_last());
        if b.len() == 1 {
            assert(a + b.drop_last() =~= a);
        } else {
            law_parts_are_separated(a, b.drop_last(), separator);
        }
        assert(separated(a + b, separator) =~= separated(a, separator) + separator + separated(
            b,
            separator,
        ));
    }
}

/// A run of digits denotes a number by the value of each digit and its place.
pub proof fn law_digits_count_by_their_place(a: Seq<char>, b: Seq<char>)
    requires
        all_digits(a),
        all_digits(b),
    ensures
        decimal_value(a + b) == decimal_value(a) * pow(10, b.len()) + decimal_value(b),
        forall|c: char| is_digit(c) ==> #[trigger] decimal_value(seq![c]) == c as int - '0' as int,
    decreases b.len(),
{
    reveal(pow);
    assert forall|c: char| is_digit(c) implies #[trigger] decimal_value(seq![c]) == c as int
        - '0' as int by {
        assert(seq![c].drop_last() =~= Seq::<char>::empty());
        assert(decimal_value(seq![c].drop_last()) == 0);
    }
    if b.len() == 0 {
        assert(a + b =~= a);
        assert(pow(10, 0) == 1);
    } else {
        let shorter = b.drop_last();
        assert forall|i: int| 0 <= i < shorter.len() implies is_digit(#[trigger] shorter[i]) by {
            assert(shorter[i] == b[i]);
        }
        law_digits_count_by_their_place(a, shorter);
        assert((a + b).drop_last() =~= a + shorter);
        assert((a + b).last() == b.last());
        let p = pow(10, shorter.len());
        assert(pow(10, b.len()) == 10 * p);
        let v = decimal_value(a) as int;
        assert(10 * (v * p) == v * (10 * p)) by (nonlinear_arith);
    }
}

/// The decimal notation of a number is made of digits, denotes the number, and starts with a zero
/// for the number zero alone, where that is all.
pub proof fn law_decimal_notation(n: nat)
    ensures
        all_digits(decimal_digits(n)),
        decimal_digits(n).len() > 0,
        decimal_value(decimal_digits(n)) == n,
        decimal_digits(n)[0] == '0' ==> n == 0 && decimal_digits(n).len() == 1,
    decreases n,
{
    let all = decimal_digits(n);
    if n < 10 {
        assert(all.drop_last() =~= Seq::<char>::empty());
        assert(decimal_value(all.drop_last()) == 0);
    } else {
        law_decimal_notation(n / 10);
        assert(all.drop_last() =~= decimal_digits(n / 10));
        assert(all[0] == decimal_digits(n / 10)[0]);
        assert forall|i: int| 0 <= i < all.len() implies is_digit(#[trigger] all[i]) by {
            if i < all.len() - 1 {
                assert(all[i] == decimal_digits(n / 10)[i]);
            }
        }
    }
}

/// A number that is not negative is written without a sign, and a negative one with a minus before
/// the number without its sign.
pub proof fn law_sign_stands_in_front(n: int)
    ensures
        n >= 0 ==> signed_digits(n) == decimal_digits(n as nat),
        n < 0 ==> signed_digits(n) == seq!['-'] + decimal_digits((-n) as nat),
{
}

/// A run of digits, with a plus or without, spells the number that it denotes where that fits; with
/// a minus it spells the opposite. Zeros in front make no difference.
pub proof fn law_digits_spell_a_number(digits: Seq<char>)
    requires
        digits.len() > 0,
        all_digits(digits),
    ensures
        ({
            let value = decimal_value(digits);
            &&& value <= 0x7fff_ffff ==> parsed_i32(digits) == Some(value as i32)
            &&& value > 0x7fff_ffff ==> parsed_i32(digits) is None
            &&& parsed_i32(seq!['+'] + digits) == parsed_i32(digits)
            &&& value <= 0x8000_0000 ==> parsed_i32(seq!['-'] + digits) == Some((-value) as i32)
            &&& value > 0x8000_0000 ==> parsed_i32(seq!['-'] + digits) is None
            &&& parsed_i32(seq!['0'] + digits) == parsed_i32(digits)
        }),
{
    assert(is_digit(digits[0]));
    let plus = seq!['+'] + digits;
    let minus = seq!['-'] + digits;
    let zero = seq!['0'] + digits;
    assert(plus.skip(1) =~= digits);
    assert(minus.skip(1) =~= digits);
    assert(all_digits(seq!['0']));
    law_digits_count_by_their_place(seq!['0'], digits);
    assert(decimal_value(seq!['0']) == 0);
    assert(decimal_value(zero) == decimal_value(digits)) by {
        assert(0 * pow(10, digits.len()) == 0) by (nonlinear_arith);
    }
    assert forall|i: int| 0 <= i < zero.len() implies is_digit(#[trigger] zero[i]) by {
        if i > 0 {
            assert(zero[i] == digits[i - 1]);
        }
    }
}

/// Nothing but digits, with at most one sign in front of them, spells a number.
pub proof fn law_only_digits_spell_a_number(s: Seq<char>)
    requires
        parsed_i32(s) is Some,
    ensures
        s.len() > 0,
        is_digit(s[0]) || ((s[0] == '-' || s[0] == '+') && s.len() > 1),
        forall|i: int| 1 <= i < s.len() ==> is_digit(#[trigger] s[i]),
{
    let digits = unsigned_part(s);
    assert(is_digit(digits[0]));
    assert forall|i: int| 1 <= i < s.len() implies is_digit(#[trigger] s[i]) by {
        if digits.len() < s.len() {
            assert(digits[i - 1] == s[i]);
        } else {
            assert(digits[i] == s[i]);
        }
    }
}

/// The decimal notation of a number spells the number.
pub proof fn law_notation_spells_the_number(n: i32)
    ensures
        parsed_i32(signed_digits(n as int)) == Some(n),
{
    if n < 0 {
        law_decimal_notation((-n) as nat);
        law_digits_spell_a_number(decimal_digits((-n) as nat));
    } else {
        law_decimal_notation(n as nat);
        law_digits_spell_a_number(decimal_digits(n as nat));
    }
}

/// Whether the first `k` characters of two strings are the same, and what follows decides: the
/// first string ends there and the second goes on, or its next character is the lower one.
pub open spec fn decided_at(a: Seq<char>, b: Seq<char>, k: int) -> bool {
    &&& 0 <= k <= a.len()
    &&& k < b.len()
    &&& forall|i: int| 0 <= i < k ==> #[trigger] a[i] == b[i]
    &&& k == a.len() || (a[k] as int) < (b[k] as int)
}

/// Strings are ordered by the first character in which they differ; a string comes before those
/// that it is the start of.
pub proof fn law_first_difference_decides(a: Seq<char>, b: Seq<char>)
    ensures
        text_before(a, b) <==> exists|k: int| #[trigger] decided_at(a, b, k),
    decreases a.len(),
{
    if a.len() > 0 && b.len() > 0 {
        let c = a.drop_first();
        let d = b.drop_first();
        law_first_difference_decides(c, d);
        if text_before(a, b) {
            if (a[0] as int) < (b[0] as int) {
                assert(decided_at(a, b, 0));
            } else {
                let k = choose|k: int| #[trigger] decided_at(c, d, k);
                assert forall|i: int| 0 <= i < k + 1 implies #[trigger] a[i] == b[i] by {
                    if i > 0 {
                        assert(c[i - 1] == d[i - 1]);
                    }
                }
                assert(k < c.len() ==> c[k] == a[k + 1]);
                assert(d[k] == b[k + 1]);
                assert(decided_at(a, b, k + 1));
            }
        }
        if exists|k: int| #[trigger] decided_at(a, b, k) {
            let k = choose|k: int| #[trigger] decided_at(a, b, k);
            if k > 0 {
                assert(a[0] == b[0]);
                assert forall|i: int| 0 <= i < k - 1 implies #[trigger] c[i] == d[i] by {
                    assert(a[i + 1] == b[i + 1]);
                }
                assert(k < a.len() ==> c[k - 1] == a[k]);
                assert(d[k - 1] == b[k]);
                assert(decided_at(c, d, k - 1));
            }
        }
    } else if b.len() > 0 {
        assert(decided_at(a, b, 0));
    }
}

} // verus!
