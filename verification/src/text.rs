//! Character-level helpers on strings, with their meaning stated over `Seq<char>`.

use vstd::prelude::*;
use vstd::string::*;

verus! {

/// `String::push` of the standard library: appends one character to the end of the string.
pub assume_specification[ std::string::String::push ](s: &mut std::string::String, c: char)
    ensures
        final(s)@ == old(s)@.push(c),
;

/// The characters of `s` with every occurrence of `from` replaced by `to`.
pub open spec fn replace_char_spec(s: Seq<char>, from: char, to: char) -> Seq<char> {
    s.map_values(|c: char| if c == from { to } else { c })
}

/// Replaces every occurrence of `from` in `s` by `to`.
pub fn replace_char(s: &str, from: char, to: char) -> (out: String)
    ensures
        out@ == replace_char_spec(s@, from, to),
{
    let mut out = String::new();
    for c in it: s.chars()
        invariant
            it.seq() == s@,
            out@ == replace_char_spec(s@.take(it.index() as int), from, to),
    {
        proof {
            assert(s@.take(it.index() + 1) == s@.take(it.index() as int).push(c));
        }
        if c == from {
            out.push(to);
        } else {
            out.push(c);
        }
        proof {
            assert(replace_char_spec(s@.take(it.index() + 1), from, to) =~= out@);
        }
    }
    proof {
        assert(s@.take(s@.len() as int) == s@);
    }
    out
}

/// The text of `s` with a backslash put before every double quote.
pub open spec fn escape_quotes_spec(s: Seq<char>) -> Seq<char>
    decreases s.len(),
{
    if s.len() == 0 {
        Seq::<char>::empty()
    } else if s.last() == '"' {
        escape_quotes_spec(s.drop_last()).push('\\').push('"')
    } else {
        escape_quotes_spec(s.drop_last()).push(s.last())
    }
}

/// Puts a backslash before every double quote of `s`.
pub fn escape_quotes(s: &str) -> (out: String)
    ensures
        out@ == escape_quotes_spec(s@),
{
    let mut out = String::new();
    for c in it: s.chars()
        invariant
            it.seq() == s@,
            out@ == escape_quotes_spec(s@.take(it.index() as int)),
    {
        proof {
            let next = s@.take(it.index() + 1);
            assert(next.drop_last() == s@.take(it.index() as int));
            assert(next.last() == c);
        }
        if c == '"' {
            out.push('\\');
            out.push('"');
        } else {
            out.push(c);
        }
    }
    proof {
        assert(s@.take(s@.len() as int) == s@);
    }
    out
}

/// The decimal digit that stands for `d`, for `0 <= d <= 9`.
pub open spec fn digit_char(d: int) -> char {
    if d == 0 {
        '0'
    } else if d == 1 {
        '1'
    } else if d == 2 {
        '2'
    } else if d == 3 {
        '3'
    } else if d == 4 {
        '4'
    } else if d == 5 {
        '5'
    } else if d == 6 {
        '6'
    } else if d == 7 {
        '7'
    } else if d == 8 {
        '8'
    } else {
        '9'
    }
}

/// The value of a decimal digit character, or `None` for any other character.
pub open spec fn digit_value(c: char) -> Option<int> {
    if c == '0' {
        Some(0int)
    } else if c == '1' {
        Some(1int)
    } else if c == '2' {
        Some(2int)
    } else if c == '3' {
        Some(3int)
    } else if c == '4' {
        Some(4int)
    } else if c == '5' {
        Some(5int)
    } else if c == '6' {
        Some(6int)
    } else if c == '7' {
        Some(7int)
    } else if c == '8' {
        Some(8int)
    } else if c == '9' {
        Some(9int)
    } else {
        None
    }
}

/// The decimal text of a natural number, without leading zeros.
pub open spec fn nat_text(n: nat) -> Seq<char>
    decreases n,
{
    if n < 10 {
        seq![digit_char(n as int)]
    } else {
        nat_text(n / 10).push(digit_char((n % 10) as int))
    }
}

/// The decimal text of an integer: a minus sign before the magnitude of a negative one.
pub open spec fn int_text(i: int) -> Seq<char> {
    if i < 0 {
        seq!['-'] + nat_text((-i) as nat)
    } else {
        nat_text(i as nat)
    }
}

fn digit_of(d: u64) -> (c: char)
    requires
        d < 10,
    ensures
        c == digit_char(d as int),
{
    if d == 0 {
        '0'
    } else if d == 1 {
        '1'
    } else if d == 2 {
        '2'
    } else if d == 3 {
        '3'
    } else if d == 4 {
        '4'
    } else if d == 5 {
        '5'
    } else if d == 6 {
        '6'
    } else if d == 7 {
        '7'
    } else if d == 8 {
        '8'
    } else {
        '9'
    }
}

/// Appends the decimal text of `n` to `out`.
pub fn push_u64(out: &mut String, n: u64)
    ensures
        final(out)@ == old(out)@ + nat_text(n as nat),
{
    let mut digits: Vec<char> = Vec::new();
    digits.push(digit_of(n % 10));
    let mut rest: u64 = n / 10;
    while rest > 0
        invariant
            digits@.len() >= 1,
            nat_text(n as nat) == (if rest == 0 {
                Seq::<char>::empty()
            } else {
                nat_text(rest as nat)
            }) + digits@.reverse(),
        decreases rest,
    {
        let ghost before = digits@;
        digits.push(digit_of(rest % 10));
        proof {
            assert(digits@.reverse() =~= seq![digit_char((rest % 10) as int)] + before.reverse());
            if rest >= 10 {
                assert(nat_text(rest as nat) + before.reverse() =~= nat_text((rest / 10) as nat)
                    + digits@.reverse());
            } else {
                assert(nat_text(rest as nat) + before.reverse() =~= digits@.reverse());
            }
        }
        rest = rest / 10;
    }
    let mut k: usize = digits.len();
    while k > 0
        invariant
            k <= digits@.len(),
            out@ == old(out)@ + digits@.reverse().take(digits@.len() - k),
        decreases k,
    {
        k = k - 1;
        out.push(digits[k]);
        proof {
            let r = digits@.reverse();
            assert(r.take(digits@.len() - k) =~= r.take(digits@.len() - k - 1).push(digits@[k as int]));
        }
    }
    proof {
        assert(digits@.reverse().take(digits@.len() as int) =~= digits@.reverse());
    }
}

/// Appends the decimal text of `n` to `out`.
pub fn push_i64(out: &mut String, n: i64)
    ensures
        final(out)@ == old(out)@ + int_text(n as int),
{
    if n < 0 {
        out.push('-');
        let magnitude: u64 = if n == i64::MIN {
            9223372036854775808u64
        } else {
            (0 - n) as u64
        };
        push_u64(out, magnitude);
        proof {
            assert(out@ =~= old(out)@ + (seq!['-'] + nat_text((-(n as int)) as nat)));
        }
    } else {
        push_u64(out, n as u64);
    }
}

/// The decimal text of `n`.
pub fn u64_to_string(n: u64) -> (out: String)
    ensures
        out@ == nat_text(n as nat),
{
    let mut out = String::new();
    push_u64(&mut out, n);
    proof {
        assert(out@ =~= nat_text(n as nat));
    }
    out
}

/// The decimal text of `n`.
pub fn i64_to_string(n: i64) -> (out: String)
    ensures
        out@ == int_text(n as int),
{
    let mut out = String::new();
    push_i64(&mut out, n);
    proof {
        assert(out@ =~= int_text(n as int));
    }
    out
}

/// The parts of `parts` in order, with `sep` between each two neighbours.
pub open spec fn join_spec(parts: Seq<Seq<char>>, sep: Seq<char>) -> Seq<char>
    decreases parts.len(),
{
    if parts.len() == 0 {
        Seq::<char>::empty()
    } else if parts.len() == 1 {
        parts[0]
    } else {
        join_spec(parts.drop_last(), sep) + sep + parts.last()
    }
}

/// The views of a list of strings.
pub open spec fn views(list: Seq<String>) -> Seq<Seq<char>> {
    list.map_values(|s: String| s@)
}

/// Joins the strings of `list`, with `sep` between each two neighbours.
pub fn join(list: &Vec<String>, sep: &str) -> (out: String)
    ensures
        out@ == join_spec(views(list@), sep@),
{
    let mut out = String::new();
    let mut i: usize = 0;
    while i < list.len()
        invariant
            i <= list.len(),
            out@ == join_spec(views(list@).take(i as int), sep@),
        decreases list.len() - i,
    {
        proof {
            let next = views(list@).take(i + 1);
            assert(next.drop_last() =~= views(list@).take(i as int));
            assert(next.last() == list@[i as int]@);
        }
        if i > 0 {
            out.append(sep);
        }
        out.append(list[i].as_str());
        i = i + 1;
    }
    proof {
        assert(views(list@).take(list@.len() as int) =~= views(list@));
    }
    out
}

/// `unit` repeated `n` times.
pub open spec fn repeat_spec(unit: Seq<char>, n: nat) -> Seq<char>
    decreases n,
{
    if n == 0 {
        Seq::<char>::empty()
    } else {
        repeat_spec(unit, (n - 1) as nat) + unit
    }
}

/// Appends `unit` to `out`, `n` times.
pub fn push_repeated(out: &mut String, unit: &str, n: usize)
    ensures
        final(out)@ == old(out)@ + repeat_spec(unit@, n as nat),
{
    let mut i: usize = 0;
    while i < n
        invariant
            i <= n,
            out@ == old(out)@ + repeat_spec(unit@, i as nat),
        decreases n - i,
    {
        out.append(unit);
        i = i + 1;
        proof {
            assert(out@ =~= old(out)@ + repeat_spec(unit@, i as nat));
        }
    }
}

/// Whether two string slices hold the same characters.
pub fn str_eq(a: &str, b: &str) -> (same: bool)
    ensures
        same == (a@ == b@),
{
    let x = a.as_bytes();
    let y = b.as_bytes();
    proof {
        vstd::utf8::encode_utf8_decode_utf8(a@);
        vstd::utf8::encode_utf8_decode_utf8(b@);
    }
    if x.len() != y.len() {
        return false;
    }
    let mut i: usize = 0;
    while i < x.len()
        invariant
            i <= x@.len(),
            x@.len() == y@.len(),
            x@ == a.spec_bytes(),
            y@ == b.spec_bytes(),
            x@.take(i as int) == y@.take(i as int),
        decreases x@.len() - i,
    {
        if x[i] != y[i] {
            return false;
        }
        proof {
            assert(x@.take(i + 1) =~= x@.take(i as int).push(x@[i as int]));
            assert(y@.take(i + 1) =~= y@.take(i as int).push(y@[i as int]));
        }
        i = i + 1;
    }
    proof {
        assert(x@.take(x@.len() as int) =~= x@);
        assert(y@.take(y@.len() as int) =~= y@);
    }
    true
}

/// Whether `list` holds a string with the characters of `s`.
pub fn contains_str(list: &Vec<String>, s: &str) -> (found: bool)
    ensures
        found == views(list@).contains(s@),
{
    let mut i: usize = 0;
    while i < list.len()
        invariant
            i <= list.len(),
            forall|j: int| 0 <= j < i ==> list@[j]@ != s@,
        decreases list.len() - i,
    {
        if str_eq(list[i].as_str(), s) {
            proof {
                assert(views(list@)[i as int] == s@);
            }
            return true;
        }
        i = i + 1;
    }
    proof {
        assert forall|j: int| 0 <= j < views(list@).len() implies views(list@)[j] != s@ by {
            assert(views(list@)[j] == list@[j]@);
        }
    }
    false
}

/// An owned copy of `s`.
pub fn owned(s: &str) -> (out: String)
    ensures
        out@ == s@,
{
    String::from_str(s)
}

/// The characters of `s`.
pub fn chars_of(s: &str) -> (out: Vec<char>)
    ensures
        out@ == s@,
{
    let mut out: Vec<char> = Vec::new();
    for c in it: s.chars()
        invariant
            it.seq() == s@,
            out@ == s@.take(it.index() as int),
    {
        proof {
            assert(s@.take(it.index() + 1) == s@.take(it.index() as int).push(c));
        }
        out.push(c);
    }
    proof {
        assert(s@.take(s@.len() as int) == s@);
    }
    out
}

/// What follows `prefix` in `s`, where `s` begins with `prefix`.
pub fn strip_prefix(s: &str, prefix: &str) -> (rest: Option<String>)
    ensures
        match rest {
            Some(r) => s@ == prefix@ + r@,
            None => !prefix@.is_prefix_of(s@),
        },
{
    let all = chars_of(s);
    let head = chars_of(prefix);
    if head.len() > all.len() {
        return None;
    }
    let mut i: usize = 0;
    while i < head.len()
        invariant
            i <= head@.len() <= all@.len(),
            all@ == s@,
            head@ == prefix@,
            all@.take(i as int) == head@.take(i as int),
        decreases head@.len() - i,
    {
        if all[i] != head[i] {
            proof {
                if prefix@.is_prefix_of(s@) {
                    assert(s@[i as int] == prefix@[i as int]);
                }
            }
            return None;
        }
        proof {
            assert(all@.take(i + 1) =~= all@.take(i as int).push(all@[i as int]));
            assert(head@.take(i + 1) =~= head@.take(i as int).push(head@[i as int]));
        }
        i = i + 1;
    }
    let mut rest = String::new();
    let mut k: usize = head.len();
    proof {
        assert(head@.take(head@.len() as int) =~= head@);
        assert(all@.subrange(head@.len() as int, k as int) =~= Seq::<char>::empty());
    }
    while k < all.len()
        invariant
            head@.len() <= k <= all@.len(),
            rest@ == all@.subrange(head@.len() as int, k as int),
        decreases all@.len() - k,
    {
        rest.push(all[k]);
        k = k + 1;
        proof {
            assert(rest@ =~= all@.subrange(head@.len() as int, k as int));
        }
    }
    proof {
        assert(s@ =~= all@.take(head@.len() as int) + all@.subrange(
            head@.len() as int,
            all@.len() as int,
        ));
    }
    Some(rest)
}

/// The number that a text of decimal digits stands for; a character that is no digit
/// counts as zero.
pub open spec fn digits_value(s: Seq<char>) -> nat
    decreases s.len(),
{
    if s.len() == 0 {
        0
    } else {
        digits_value(s.drop_last()) * 10 + match digit_value(s.last()) {
            Some(d) => d as nat,
            None => 0,
        }
    }
}

/// Whether every character of `s` is a decimal digit.
pub open spec fn all_digits(s: Seq<char>) -> bool {
    forall|i: int| 0 <= i < s.len() ==> digit_value(#[trigger] s[i]) is Some
}

/// The decimal text of a number is made of digits and stands for the number.
pub proof fn lemma_nat_text_value(n: nat)
    ensures
        nat_text(n).len() >= 1,
        all_digits(nat_text(n)),
        digits_value(nat_text(n)) == n,
    decreases n,
{
    if n < 10 {
        let s = nat_text(n);
        assert(s.drop_last() =~= Seq::<char>::empty());
        assert(digits_value(s.drop_last()) == 0);
        assert(s.last() == digit_char(n as int));
    } else {
        lemma_nat_text_value(n / 10);
        let s = nat_text(n);
        assert(s.drop_last() =~= nat_text(n / 10));
        assert(s.last() == digit_char((n % 10) as int));
        assert forall|i: int| 0 <= i < s.len() implies digit_value(#[trigger] s[i]) is Some by {
            if i < s.len() - 1 {
                assert(s[i] == nat_text(n / 10)[i]);
            }
        }
    }
}

/// Two numbers with the same decimal text are the same number.
pub proof fn lemma_nat_text_injective(a: nat, b: nat)
    requires
        nat_text(a) == nat_text(b),
    ensures
        a == b,
{
    lemma_nat_text_value(a);
    lemma_nat_text_value(b);
}

fn value_of_digit(c: char) -> (d: Option<u64>)
    ensures
        match d {
            Some(v) => digit_value(c) == Some(v as int) && v < 10,
            None => digit_value(c) is None,
        },
{
    if c == '0' {
        Some(0)
    } else if c == '1' {
        Some(1)
    } else if c == '2' {
        Some(2)
    } else if c == '3' {
        Some(3)
    } else if c == '4' {
        Some(4)
    } else if c == '5' {
        Some(5)
    } else if c == '6' {
        Some(6)
    } else if c == '7' {
        Some(7)
    } else if c == '8' {
        Some(8)
    } else if c == '9' {
        Some(9)
    } else {
        None
    }
}

/// The value of the digits of a prefix is at most the value of the whole text.
pub proof fn lemma_digits_value_grows(s: Seq<char>, n: int)
    requires
        0 <= n <= s.len(),
    ensures
        digits_value(s.take(n)) <= digits_value(s),
    decreases s.len() - n,
{
    if n < s.len() {
        let next = s.take(n + 1);
        assert(next.drop_last() =~= s.take(n));
        lemma_digits_value_grows(s, n + 1);
    } else {
        assert(s.take(n) =~= s);
    }
}

/// Reads a number written in decimal without a sign and without leading zeros.
///
/// The result is `Some(n)` exactly for the decimal text of a number `n` that fits.
pub fn parse_u64(s: &str) -> (out: Option<u64>)
    ensures
        match out {
            Some(n) => s@ == nat_text(n as nat),
            None => forall|n: u64| s@ != nat_text(n as nat),
        },
{
    let digits = chars_of(s);
    let mut value: u64 = 0;
    let mut i: usize = 0;
    proof {
        assert(digits@.take(0) =~= Seq::<char>::empty());
    }
    while i < digits.len()
        invariant
            i <= digits@.len(),
            digits@ == s@,
            value == digits_value(digits@.take(i as int)),
            all_digits(digits@.take(i as int)),
        decreases digits@.len() - i,
    {
        proof {
            let next = digits@.take(i + 1);
            assert(next.drop_last() =~= digits@.take(i as int));
            assert(next.last() == digits@[i as int]);
            lemma_digits_value_grows(digits@, i + 1);
        }
        match value_of_digit(digits[i]) {
            None => {
                proof {
                    assert forall|n: u64| s@ != nat_text(n as nat) by {
                        lemma_nat_text_value(n as nat);
                    }
                }
                return None;
            },
            Some(d) => {
                if value > (u64::MAX - d) / 10 {
                    proof {
                        assert(digits_value(digits@.take(i + 1)) > u64::MAX);
                        assert forall|n: u64| s@ != nat_text(n as nat) by {
                            lemma_nat_text_value(n as nat);
                        }
                    }
                    return None;
                }
                value = value * 10 + d;
                proof {
                    let next = digits@.take(i + 1);
                    assert forall|k: int| 0 <= k < next.len() implies digit_value(
                        #[trigger] next[k],
                    ) is Some by {
                        if k < i {
                            assert(next[k] == digits@.take(i as int)[k]);
                        }
                    }
                }
            },
        }
        i = i + 1;
    }
    proof {
        assert(digits@.take(digits@.len() as int) =~= digits@);
    }
    let canonical = u64_to_string(value);
    if str_eq(canonical.as_str(), s) {
        Some(value)
    } else {
        proof {
            assert forall|n: u64| s@ != nat_text(n as nat) by {
                lemma_nat_text_value(n as nat);
            }
        }
        None
    }
}

/// The characters of `chars` from `from` up to `to`, as a string.
pub fn substring(chars: &Vec<char>, from: usize, to: usize) -> (out: String)
    requires
        from <= to <= chars@.len(),
    ensures
        out@ == chars@.subrange(from as int, to as int),
{
    let mut out = String::new();
    let mut k: usize = from;
    proof {
        assert(chars@.subrange(from as int, k as int) =~= Seq::<char>::empty());
    }
    while k < to
        invariant
            from <= k <= to <= chars@.len(),
            out@ == chars@.subrange(from as int, k as int),
        decreases to - k,
    {
        out.push(chars[k]);
        k = k + 1;
        proof {
            assert(out@ =~= chars@.subrange(from as int, k as int));
        }
    }
    out
}

/// How often `c` stands in `s`.
pub open spec fn count_char(s: Seq<char>, c: char) -> nat
    decreases s.len(),
{
    if s.len() == 0 {
        0
    } else {
        count_char(s.drop_last(), c) + if s.last() == c {
            1nat
        } else {
            0nat
        }
    }
}

/// The index of the first `c` in `s`, or the length of `s` where there is none.
pub open spec fn first_index(s: Seq<char>, c: char) -> int
    decreases s.len(),
{
    if s.len() == 0 {
        0
    } else {
        let before = first_index(s.drop_last(), c);
        if before < s.len() - 1 {
            before
        } else if s.last() == c {
            s.len() - 1
        } else {
            s.len() as int
        }
    }
}

/// The first index of a character lies in the text or at its end, and is at the end
/// exactly where the character does not stand in the text.
pub proof fn lemma_first_index(s: Seq<char>, c: char)
    ensures
        0 <= first_index(s, c) <= s.len(),
        first_index(s, c) < s.len() ==> s[first_index(s, c)] == c,
        (first_index(s, c) == s.len()) == (count_char(s, c) == 0),
    decreases s.len(),
{
    if s.len() > 0 {
        lemma_first_index(s.drop_last(), c);
        let before = first_index(s.drop_last(), c);
        if before < s.len() - 1 {
            assert(s.drop_last()[before] == s[before]);
        }
    }
}

/// How often `c` stands in `chars`, counted up to two, and where it stands first.
pub fn scan_for(chars: &Vec<char>, c: char) -> (found: (usize, usize))
    ensures
        found.0 == (if count_char(chars@, c) >= 2 {
            2nat
        } else {
            count_char(chars@, c)
        }),
        found.1 == first_index(chars@, c),
        found.1 <= chars@.len(),
{
    let mut count: usize = 0;
    let mut first: usize = chars.len();
    let mut seen = false;
    let mut i: usize = 0;
    proof {
        assert(chars@.take(0) =~= Seq::<char>::empty());
    }
    while i < chars.len()
        invariant
            i <= chars@.len(),
            count <= 2,
            count == (if count_char(chars@.take(i as int), c) >= 2 {
                2nat
            } else {
                count_char(chars@.take(i as int), c)
            }),
            seen == (first_index(chars@.take(i as int), c) < i),
            seen ==> first == first_index(chars@.take(i as int), c),
            !seen ==> first == chars@.len(),
        decreases chars@.len() - i,
    {
        proof {
            let next = chars@.take(i + 1);
            assert(next.drop_last() =~= chars@.take(i as int));
            assert(next.last() == chars@[i as int]);
            lemma_first_index(chars@.take(i as int), c);
        }
        if chars[i] == c {
            if count < 2 {
                count = count + 1;
            }
            if !seen {
                seen = true;
                first = i;
            }
        }
        i = i + 1;
    }
    proof {
        assert(chars@.take(chars@.len() as int) =~= chars@);
        lemma_first_index(chars@, c);
    }
    (count, first)
}

/// `ids` with `id` at its end, unless it holds `id` already.
pub open spec fn with_unique(ids: Seq<Seq<char>>, id: Seq<char>) -> Seq<Seq<char>> {
    if ids.contains(id) {
        ids
    } else {
        ids.push(id)
    }
}

/// Adds `id` to `ids` unless it is there already.
pub fn push_unique(ids: &mut Vec<String>, id: &str)
    ensures
        views(final(ids)@) == with_unique(views(old(ids)@), id@),
{
    if !contains_str(ids, id) {
        let ghost before = views(ids@);
        ids.push(owned(id));
        proof {
            assert(views(ids@) =~= before.push(id@));
        }
    }
}

/// No id stands twice in `ids`.
pub open spec fn no_duplicates(ids: Seq<Seq<char>>) -> bool {
    forall|i: int, j: int| 0 <= i < j < ids.len() ==> ids[i] != ids[j]
}

/// Adding an id that may be there already keeps every id single.
pub proof fn lemma_with_unique_once(ids: Seq<Seq<char>>, id: Seq<char>)
    requires
        no_duplicates(ids),
    ensures
        no_duplicates(with_unique(ids, id)),
{
    let after = with_unique(ids, id);
    assert forall|i: int, j: int| 0 <= i < j < after.len() implies after[i] != after[j] by {
        if j == ids.len() {
            assert(ids[i] == after[i]);
            assert(ids.contains(after[i]));
        }
    }
}

/// A copy of a list of strings.
pub fn clone_names(list: &Vec<String>) -> (copy: Vec<String>)
    ensures
        views(copy@) == views(list@),
{
    let mut copy: Vec<String> = Vec::new();
    let mut i: usize = 0;
    while i < list.len()
        invariant
            i <= list.len(),
            copy@.len() == i,
            forall|k: int| 0 <= k < i ==> copy@[k]@ == list@[k]@,
        decreases list.len() - i,
    {
        copy.push(list[i].clone());
        i = i + 1;
    }
    proof {
        assert(views(copy@) =~= views(list@));
    }
    copy
}

} // verus!
