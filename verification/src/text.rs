//! Small helpers for the texts the engine reads and writes: characters of a
//! string, splitting at a separator, and decimal numbers.

use vstd::prelude::*;
use vstd::utf8::{encode_utf8, valid_utf8};

verus! {

/// The characters of a string, one vector element each.
pub fn chars_of(s: &str) -> (chars: Vec<char>)
    ensures
        chars@ == s@,
{
    let mut chars: Vec<char> = Vec::new();
    for c in it: s.chars()
        invariant
            chars@ == it.seq().take(it.index() as int),
            it.seq() == s@,
    {
        chars.push(c);
    }
    chars
}

/// Appends one character with `String::push`.
#[verifier::external_body]
pub(crate) fn push_char(s: &mut String, c: char)
    ensures
        final(s)@ == old(s)@.push(c),
{
    s.push(c);
}

/// Reads bytes as text with `String::from_utf8`, which takes well-formed
/// UTF-8 and nothing else and keeps the bytes as they are.
#[verifier::external_body]
pub(crate) fn utf8_string(bytes: &[u8]) -> (text: Option<String>)
    ensures
        text matches Some(s) ==> encode_utf8(s@) == bytes@,
        text is None ==> !valid_utf8(bytes@),
{
    String::from_utf8(bytes.to_vec()).ok()
}

/// Whether two character strings are the same.
pub fn same_chars(a: &[char], b: &[char]) -> (same: bool)
    ensures
        same == (a@ == b@),
{
    if a.len() != b.len() {
        return false;
    }
    let mut i: usize = 0;
    while i < a.len()
        invariant
            a@.len() == b@.len(),
            i <= a@.len(),
            forall|k: int| 0 <= k < i ==> a@[k] == b@[k],
        decreases a@.len() - i,
    {
        if a[i] != b[i] {
            return false;
        }
        i += 1;
    }
    assert(a@ =~= b@);
    true
}

/// The string made of the given characters.
pub fn string_of(chars: &[char]) -> (s: String)
    ensures
        s@ == chars@,
{
    let mut s = String::new();
    let mut i: usize = 0;
    while i < chars.len()
        invariant
            i <= chars@.len(),
            s@ == chars@.take(i as int),
        decreases chars@.len() - i,
    {
        push_char(&mut s, chars[i]);
        proof {
            assert(chars@.take(i + 1) =~= chars@.take(i as int).push(chars@[i as int]));
        }
        i += 1;
    }
    proof {
        assert(chars@.take(chars@.len() as int) =~= chars@);
    }
    s
}

/// The pieces of `s` between occurrences of `sep`. There is always at least
/// one piece; a separator at either end leaves an empty piece there.
pub open spec fn split(s: Seq<char>, sep: char) -> Seq<Seq<char>>
    decreases s.len(),
{
    if s.len() == 0 {
        seq![Seq::<char>::empty()]
    } else {
        let before = split(s.drop_last(), sep);
        if s.last() == sep {
            before.push(Seq::<char>::empty())
        } else {
            before.update(before.len() - 1, before.last().push(s.last()))
        }
    }
}

/// There is always a piece.
pub proof fn lemma_split_nonempty(s: Seq<char>, sep: char)
    ensures
        split(s, sep).len() >= 1,
    decreases s.len(),
{
    if s.len() > 0 {
        lemma_split_nonempty(s.drop_last(), sep);
    }
}

/// The pieces put together again, with `sep` between one piece and the
/// next.
pub open spec fn join(pieces: Seq<Seq<char>>, sep: char) -> Seq<char>
    decreases pieces.len(),
{
    if pieces.len() == 0 {
        Seq::empty()
    } else if pieces.len() == 1 {
        pieces[0]
    } else {
        join(pieces.drop_last(), sep) + seq![sep] + pieces.last()
    }
}

/// The pieces of a text hold no separator, and put together again they
/// are the text.
pub proof fn lemma_split_joins(s: Seq<char>, sep: char)
    ensures
        join(split(s, sep), sep) == s,
        forall|i: int| 0 <= i < split(s, sep).len() ==> !(#[trigger] split(s, sep)[i]).contains(sep),
    decreases s.len(),
{
    let pieces = split(s, sep);
    if s.len() == 0 {
        assert(pieces[0] =~= s);
    } else {
        let shorter = s.drop_last();
        let before = split(shorter, sep);
        lemma_split_joins(shorter, sep);
        lemma_split_nonempty(shorter, sep);
        assert(shorter.push(s.last()) =~= s);
        if s.last() == sep {
            assert(pieces.drop_last() =~= before);
            assert(join(pieces, sep) =~= s);
            assert forall|i: int| 0 <= i < pieces.len() implies !(#[trigger] pieces[i]).contains(
                sep,
            ) by {
                if i < before.len() {
                    assert(pieces[i] == before[i]);
                }
            }
        } else {
            let last = before.last().push(s.last());
            assert(pieces.last() == last);
            assert forall|i: int| 0 <= i < pieces.len() implies !(#[trigger] pieces[i]).contains(
                sep,
            ) by {
                if i < before.len() - 1 {
                    assert(pieces[i] == before[i]);
                } else {
                    if last.contains(sep) {
                        let k = choose|k: int| 0 <= k < last.len() && last[k] == sep;
                        assert(k < before.last().len());
                        assert(before.last()[k] == sep);
                        assert(before[before.len() - 1].contains(sep));
                    }
                }
            }
            if before.len() == 1 {
                assert(join(before, sep) == before[0]);
                assert(join(pieces, sep) =~= s);
            } else {
                assert(pieces.drop_last() =~= before.drop_last());
                assert(join(before, sep) == join(before.drop_last(), sep) + seq![sep]
                    + before.last());
                assert(join(pieces, sep) =~= join(before, sep).push(s.last()));
            }
        }
    }
}

/// A text without the separator is one piece.
pub proof fn lemma_split_whole(s: Seq<char>, sep: char)
    requires
        !s.contains(sep),
    ensures
        split(s, sep) == seq![s],
    decreases s.len(),
{
    if s.len() == 0 {
        assert(s =~= Seq::<char>::empty());
    } else {
        assert(s.last() == s[s.len() - 1]);
        assert forall|i: int| 0 <= i < s.drop_last().len() implies s.drop_last()[i] != sep by {
            assert(s.drop_last()[i] == s[i]);
        }
        lemma_split_whole(s.drop_last(), sep);
        assert(s.drop_last().push(s.last()) =~= s);
        assert(split(s, sep) =~= seq![s]);
    }
}

/// A text without the separator behind another text lengthens the last
/// piece of that text.
pub proof fn lemma_split_append(x: Seq<char>, s: Seq<char>, sep: char)
    requires
        !s.contains(sep),
    ensures
        split(x + s, sep) == split(x, sep).update(
            split(x, sep).len() - 1,
            split(x, sep).last() + s,
        ),
    decreases s.len(),
{
    lemma_split_nonempty(x, sep);
    let before = split(x, sep);
    if s.len() == 0 {
        assert(x + s =~= x);
        assert(before.last() + s =~= before.last());
        assert(before.update(before.len() - 1, before.last()) =~= before);
    } else {
        let shorter = s.drop_last();
        assert(s.last() == s[s.len() - 1]);
        assert forall|i: int| 0 <= i < shorter.len() implies shorter[i] != sep by {
            assert(shorter[i] == s[i]);
        }
        lemma_split_append(x, shorter, sep);
        assert((x + s).drop_last() =~= x + shorter);
        assert((x + s).last() == s.last());
        let middle = split(x + shorter, sep);
        assert(middle.last() == before.last() + shorter);
        assert(before.last() + shorter + seq![s.last()] =~= before.last() + s);
        assert(middle.last().push(s.last()) =~= before.last() + s);
        assert(split(x + s, sep) =~= before.update(before.len() - 1, before.last() + s));
    }
}

/// A piece behind a separator is a piece of its own, where it holds no
/// separator itself.
pub proof fn lemma_split_next(x: Seq<char>, s: Seq<char>, sep: char)
    requires
        !s.contains(sep),
    ensures
        split(x + seq![sep] + s, sep) == split(x, sep).push(s),
{
    let cut = x + seq![sep];
    assert(cut.drop_last() =~= x);
    assert(cut.last() == sep);
    assert(split(cut, sep) == split(x, sep).push(Seq::<char>::empty()));
    lemma_split_append(cut, s, sep);
    assert(Seq::<char>::empty() + s =~= s);
    assert(split(cut + s, sep) =~= split(x, sep).push(s));
}

/// One more element at the end of a sequence adds itself to what a filter
/// keeps, where the filter keeps it.
pub proof fn lemma_filter_step<A>(s: Seq<A>, keep: spec_fn(A) -> bool, i: int)
    requires
        0 <= i < s.len(),
    ensures
        s.take(i + 1).filter(keep) == if keep(s[i]) {
            s.take(i).filter(keep).push(s[i])
        } else {
            s.take(i).filter(keep)
        },
{
    reveal(Seq::filter);
    assert(s.take(i + 1).drop_last() =~= s.take(i));
}

/// What a filter keeps of a sequence, it keeps in the order of the
/// sequence: of two elements kept, the one that stands first in what is
/// kept stood first in the sequence. `place` says where in the sequence
/// an element that was kept stood.
pub proof fn lemma_filter_order<A>(s: Seq<A>, keep: spec_fn(A) -> bool) -> (place: Seq<int>)
    ensures
        place.len() == s.filter(keep).len(),
        forall|i: int| 0 <= i < place.len() ==> 0 <= #[trigger] place[i] < s.len(),
        forall|i: int| 0 <= i < place.len() ==> s.filter(keep)[i] == s[#[trigger] place[i]],
        forall|i: int, j: int|
            0 <= i < j < place.len() ==> #[trigger] place[i] < #[trigger] place[j],
    decreases s.len(),
{
    reveal(Seq::filter);
    if s.len() == 0 {
        Seq::empty()
    } else {
        let before = lemma_filter_order(s.drop_last(), keep);
        assert forall|i: int| 0 <= i < before.len() implies s.drop_last()[before[i]]
            == s[before[i]] by {}
        if keep(s.last()) {
            before.push(s.len() - 1)
        } else {
            before
        }
    }
}

/// A filter that keeps every element of a sequence keeps the sequence.
pub proof fn lemma_filter_all<A>(s: Seq<A>, keep: spec_fn(A) -> bool)
    requires
        forall|i: int| 0 <= i < s.len() ==> keep(#[trigger] s[i]),
    ensures
        s.filter(keep) == s,
    decreases s.len(),
{
    reveal(Seq::filter);
    if s.len() > 0 {
        assert forall|i: int| 0 <= i < s.drop_last().len() implies keep(
            #[trigger] s.drop_last()[i],
        ) by {
            assert(s.drop_last()[i] == s[i]);
        }
        lemma_filter_all(s.drop_last(), keep);
        assert(keep(s[s.len() - 1]));
        assert(s.drop_last().push(s.last()) =~= s);
    }
}

/// The views of a vector of character vectors.
pub open spec fn views(pieces: Seq<Vec<char>>) -> Seq<Seq<char>> {
    Seq::new(pieces.len(), |i: int| pieces[i]@)
}

/// Splits `s` at every `sep`.
pub fn split_at(s: &[char], sep: char) -> (pieces: Vec<Vec<char>>)
    ensures
        views(pieces@) == split(s@, sep),
        pieces@.len() >= 1,
{
    let mut done: Vec<Vec<char>> = Vec::new();
    let mut current: Vec<char> = Vec::new();
    let mut i: usize = 0;
    while i < s.len()
        invariant
            i <= s@.len(),
            views(done@).push(current@) == split(s@.take(i as int), sep),
        decreases s@.len() - i,
    {
        let c = s[i];
        proof {
            let now = s@.take(i + 1);
            assert(now.drop_last() =~= s@.take(i as int));
            assert(now.last() == c);
            lemma_split_nonempty(s@.take(i as int), sep);
        }
        if c == sep {
            let ghost before = views(done@).push(current@);
            done.push(current);
            current = Vec::new();
            proof {
                assert(views(done@) =~= before);
            }
        } else {
            let ghost before = views(done@).push(current@);
            current.push(c);
            proof {
                assert(views(done@).push(current@) =~= before.update(
                    before.len() - 1,
                    before.last().push(c),
                ));
            }
        }
        i += 1;
    }
    proof {
        assert(s@.take(s@.len() as int) =~= s@);
    }
    let ghost before = views(done@).push(current@);
    done.push(current);
    proof {
        assert(views(done@) =~= before);
    }
    done
}

/// The texts of a vector of strings.
pub open spec fn texts_of(strings: Seq<String>) -> Seq<Seq<char>> {
    Seq::new(strings.len(), |i: int| strings[i]@)
}

/// The decimal digit for `d`, meant for `0 <= d <= 9`.
pub open spec fn digit(d: int) -> char {
    ((d + 48) as u8) as char
}

/// The decimal digits of a natural number, without leading zeros.
pub open spec fn digits(n: nat) -> Seq<char>
    decreases n,
{
    if n < 10 {
        seq![digit(n as int)]
    } else {
        digits(n / 10).push(digit((n % 10) as int))
    }
}

/// The decimal text of an integer: a minus sign for a negative number, then
/// its digits.
pub open spec fn decimal(n: int) -> Seq<char> {
    if n < 0 {
        seq!['-'] + digits((-n) as nat)
    } else {
        digits(n as nat)
    }
}

/// The digits of a number are digits, at least one of them, and they write
/// the number.
pub proof fn lemma_digits(n: nat)
    ensures
        digits(n).len() >= 1,
        all_digits(digits(n)),
        digits_value(digits(n)) == n,
    decreases n,
{
    if n < 10 {
        let d = digits(n);
        assert(d.len() == 1);
        assert(d[0] == digit(n as int));
        assert(d.drop_last() =~= Seq::<char>::empty());
        assert(digits_value(d.drop_last()) == 0);
        assert(d.last() as int - 48 == n);
    } else {
        lemma_digits(n / 10);
        let d = digits(n);
        let head = digits(n / 10);
        assert(d == head.push(digit((n % 10) as int)));
        assert(d.drop_last() =~= head);
        assert(d.last() as int - 48 == n % 10);
        assert forall|i: int| 0 <= i < d.len() implies is_digit(#[trigger] d[i]) by {
            if i < head.len() {
                assert(d[i] == head[i]);
            }
        }
    }
}

/// The decimal text of an integer reads back as the integer.
pub proof fn lemma_decimal_round_trip(n: int, min: int, max: int)
    requires
        min <= n <= max,
    ensures
        parse_decimal(decimal(n), min, max) == Some(n),
        forall|i: int|
            0 <= i < decimal(n).len() ==> is_digit(#[trigger] decimal(n)[i]) || decimal(n)[i]
                == '-',
{
    if n < 0 {
        lemma_digits((-n) as nat);
        let text = decimal(n);
        assert(text[0] == '-');
        assert(has_sign(text, min));
        assert(text.drop_first() =~= digits((-n) as nat));
    } else {
        lemma_digits(n as nat);
        let text = decimal(n);
        assert(is_digit(text[0]));
        assert(!has_sign(text, min));
    }
}

/// Writes a natural number in decimal.
pub fn digits_string(n: u64) -> (s: String)
    ensures
        s@ == digits(n as nat),
{
    let mut reversed: Vec<char> = Vec::new();
    let mut rest: u64 = n;
    // The digits are produced from the last to the first.
    loop
        invariant_except_break
            digits(n as nat) == digits(rest as nat) + reversed@.reverse(),
        ensures
            digits(n as nat) == reversed@.reverse(),
        decreases rest,
    {
        let d: u8 = (rest % 10) as u8;
        let c: char = (d + 48) as char;
        if rest < 10 {
            let ghost old_reversed = reversed@;
            reversed.push(c);
            proof {
                assert(reversed@.reverse() =~= seq![c] + old_reversed.reverse());
                assert(digits(rest as nat) =~= seq![c]);
            }
            break ;
        }
        let ghost old_reversed = reversed@;
        let ghost old_rest = rest;
        reversed.push(c);
        rest = rest / 10;
        proof {
            assert(reversed@.reverse() =~= seq![c] + old_reversed.reverse());
            assert(digits(old_rest as nat) == digits(rest as nat).push(c));
            assert(digits(old_rest as nat) + old_reversed.reverse() =~= digits(rest as nat)
                + reversed@.reverse());
        }
    }
    let mut s = String::new();
    let mut i: usize = reversed.len();
    while i > 0
        invariant
            i <= reversed@.len(),
            s@ == reversed@.reverse().take(reversed@.len() - i),
        decreases i,
    {
        i -= 1;
        push_char(&mut s, reversed[i]);
        proof {
            let r = reversed@.reverse();
            let k = reversed@.len() - i;
            assert(r.take(k) =~= r.take(k - 1).push(r[k - 1]));
        }
    }
    proof {
        let r = reversed@.reverse();
        assert(r.take(r.len() as int) =~= r);
    }
    s
}

/// Writes an integer in decimal.
pub fn decimal_string(n: i64) -> (s: String)
    ensures
        s@ == decimal(n as int),
{
    if n < 0 {
        let magnitude: u64 = if n == i64::MIN {
            9223372036854775808u64
        } else {
            (-n) as u64
        };
        let mut s = String::new();
        push_char(&mut s, '-');
        let body = digits_string(magnitude);
        s.append(body.as_str());
        proof {
            assert(s@ =~= seq!['-'] + digits((-n) as nat));
        }
        s
    } else {
        digits_string(n as u64)
    }
}

/// Whether `c` is one of the ten decimal digits.
pub open spec fn is_digit(c: char) -> bool {
    '0' <= c <= '9'
}

/// The number that a string of decimal digits writes.
pub open spec fn digits_value(s: Seq<char>) -> nat
    decreases s.len(),
{
    if s.len() == 0 {
        0
    } else {
        (digits_value(s.drop_last()) * 10 + (s.last() as int - 48)) as nat
    }
}

/// Whether every character of `s` is a decimal digit.
pub open spec fn all_digits(s: Seq<char>) -> bool {
    forall|i: int| 0 <= i < s.len() ==> is_digit(#[trigger] s[i])
}

/// Whether `s` starts with a sign: a plus, or a minus where `min` is
/// negative.
pub open spec fn has_sign(s: Seq<char>, min: int) -> bool {
    s.len() > 0 && (s[0] == '+' || (s[0] == '-' && min < 0))
}

/// The integer that `s` writes in decimal, if it is one within
/// `min..=max`: an optional sign, then one or more digits.
pub open spec fn parse_decimal(s: Seq<char>, min: int, max: int) -> Option<int> {
    let body = if has_sign(s, min) {
        s.drop_first()
    } else {
        s
    };
    let value = if has_sign(s, min) && s[0] == '-' {
        -(digits_value(body) as int)
    } else {
        digits_value(body) as int
    };
    if body.len() > 0 && all_digits(body) && min <= value <= max {
        Some(value)
    } else {
        None
    }
}

proof fn lemma_digits_value_grows(s: Seq<char>, k: int)
    requires
        0 <= k <= s.len(),
        all_digits(s),
    ensures
        digits_value(s.take(k)) <= digits_value(s),
    decreases s.len() - k,
{
    if k < s.len() {
        lemma_digits_value_grows(s, k + 1);
        assert(s.take(k + 1).drop_last() =~= s.take(k));
        assert(is_digit(s[k]));
    } else {
        assert(s.take(k) =~= s);
    }
}

/// Reads an integer written in decimal, within `min..=max`.
#[verifier::loop_isolation(false)]
pub fn read_decimal(s: &[char], min: i64, max: i64) -> (value: Option<i64>)
    requires
        min <= 0 <= max,
    ensures
        value matches Some(v) ==> parse_decimal(s@, min as int, max as int) == Some(v as int),
        value is None ==> parse_decimal(s@, min as int, max as int) is None,
{
    let signed = s.len() > 0 && (s[0] == '+' || (s[0] == '-' && min < 0));
    let negative = signed && s[0] == '-';
    let start: usize = if signed {
        1
    } else {
        0
    };
    let ghost body = s@.skip(start as int);
    proof {
        assert(signed == has_sign(s@, min as int));
        if signed {
            assert(s@.drop_first() =~= body);
        } else {
            assert(s@ =~= body);
        }
    }
    if start == s.len() {
        return None;
    }
    // The magnitude may reach one past `i64::MAX` for the least `i64`.
    let limit: u64 = if negative {
        if min == i64::MIN {
            9223372036854775808u64
        } else {
            (-min) as u64
        }
    } else {
        max as u64
    };
    let mut total: u64 = 0;
    let mut i: usize = start;
    while i < s.len()
        invariant
            start <= i <= s@.len(),
            body == s@.skip(start as int),
            forall|k: int| 0 <= k < i - start ==> is_digit(#[trigger] body[k]),
            total == digits_value(body.take(i - start)),
            total <= limit,
            limit <= 9223372036854775808u64,
        decreases s@.len() - i,
    {
        let c = s[i];
        proof {
            assert(body[i - start] == c);
            assert(body.take(i - start + 1).drop_last() =~= body.take(i - start));
            assert(body.take(i - start + 1).last() == c);
        }
        if !(c >= '0' && c <= '9') {
            proof {
                assert(!is_digit(body[i - start]));
            }
            return None;
        }
        let d: u8 = ((c as u32) - 48) as u8;
        let next: u128 = (total as u128) * 10 + (d as u128);
        if next > limit as u128 {
            proof {
                // The value read so far already passes the limit, and more
                // digits only add to it.
                assert(digits_value(body.take(i - start + 1)) == next);
                if all_digits(body) {
                    lemma_digits_value_grows(body, i - start + 1);
                }
            }
            return None;
        }
        total = next as u64;
        i += 1;
    }
    proof {
        assert(body.take(body.len() as int) =~= body);
    }
    if negative {
        if total == 9223372036854775808u64 {
            Some(i64::MIN)
        } else {
            Some(-(total as i64))
        }
    } else {
        Some(total as i64)
    }
}

} // verus!
