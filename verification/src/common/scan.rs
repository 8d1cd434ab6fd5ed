//! Reading text: white space, pieces between separators, and numbers.

use crate::common::text::dec;
use vstd::prelude::*;
use vstd::string::*;

verus! {

/// Unicode white space.
pub open spec fn is_white(c: char) -> bool {
    ||| 0x9 <= c as u32 <= 0xD
    ||| c as u32 == 0x20
    ||| c as u32 == 0x85
    ||| c as u32 == 0xA0
    ||| c as u32 == 0x1680
    ||| 0x2000 <= c as u32 <= 0x200A
    ||| c as u32 == 0x2028
    ||| c as u32 == 0x2029
    ||| c as u32 == 0x202F
    ||| c as u32 == 0x205F
    ||| c as u32 == 0x3000
}

fn white(c: char) -> (r: bool)
    ensures
        r == is_white(c),
{
    let n: u32 = c as u32;
    (0x9 <= n && n <= 0xD) || n == 0x20 || n == 0x85 || n == 0xA0 || n == 0x1680 || (0x2000 <= n
        && n <= 0x200A) || n == 0x2028 || n == 0x2029 || n == 0x202F || n == 0x205F || n == 0x3000
}

/// `s` without white space at its front.
pub open spec fn trimmed_front(s: Seq<char>) -> Seq<char>
    decreases s.len(),
{
    if s.len() > 0 && is_white(s[0]) {
        trimmed_front(s.drop_first())
    } else {
        s
    }
}

/// `s` without white space at its end.
pub open spec fn trimmed_back(s: Seq<char>) -> Seq<char>
    decreases s.len(),
{
    if s.len() > 0 && is_white(s.last()) {
        trimmed_back(s.drop_last())
    } else {
        s
    }
}

/// `s` without white space at its ends.
pub open spec fn trimmed(s: Seq<char>) -> Seq<char> {
    trimmed_back(trimmed_front(s))
}

/// `s` without white space at its ends.
pub fn trim(s: &str) -> (r: &str)
    ensures
        r@ == trimmed(s@),
{
    let n: usize = s.unicode_len();
    let mut from: usize = 0;
    proof {
        assert(s@.skip(0) =~= s@);
    }
    while from < n && white(s.get_char(from))
        invariant
            from <= n == s@.len(),
            trimmed_front(s@) == trimmed_front(s@.skip(from as int)),
        ensures
            from <= n,
            trimmed_front(s@) == s@.skip(from as int),
        decreases n - from,
    {
        proof {
            assert(s@.skip(from as int).drop_first() =~= s@.skip(from + 1));
        }
        from = from + 1;
    }
    let ghost front = s@.skip(from as int);
    let mut to: usize = n;
    proof {
        assert(s@.subrange(from as int, n as int) =~= front);
    }
    while to > from && white(s.get_char(to - 1))
        invariant
            from <= to <= n == s@.len(),
            trimmed_back(front) == trimmed_back(s@.subrange(from as int, to as int)),
        ensures
            from <= to <= n,
            trimmed_back(front) == s@.subrange(from as int, to as int),
        decreases to - from,
    {
        proof {
            assert(s@.subrange(from as int, to as int).drop_last() =~= s@.subrange(
                from as int,
                to - 1,
            ));
        }
        to = to - 1;
    }
    s.substring_char(from, to)
}

/// The pieces of `s` between its `sep`s. There is one more piece than
/// separators.
pub open spec fn pieces(s: Seq<char>, sep: char) -> Seq<Seq<char>>
    decreases s.len(),
{
    if s.len() == 0 {
        seq![Seq::<char>::empty()]
    } else {
        let front = pieces(s.drop_last(), sep);
        if s.last() == sep {
            front.push(Seq::empty())
        } else {
            front.drop_last().push(front.last().push(s.last()))
        }
    }
}

/// The pieces of `s` between its `sep`s.
pub fn split(s: &str, sep: char) -> (r: Vec<&str>)
    ensures
        r@.map_values(|p: &str| p@) == pieces(s@, sep),
{
    let n: usize = s.unicode_len();
    let mut r: Vec<&str> = Vec::new();
    let mut start: usize = 0;
    let mut i: usize = 0;
    let ghost f = |p: &str| p@;
    proof {
        assert(s@.take(0) =~= Seq::empty());
        assert(s@.subrange(0, 0) =~= Seq::empty());
        assert(r@.map_values(f).push(s@.subrange(0, 0)) =~= pieces(s@.take(0), sep));
    }
    while i < n
        invariant
            start <= i <= n == s@.len(),
            f == |p: &str| p@,
            r@.map_values(f).push(s@.subrange(start as int, i as int)) == pieces(
                s@.take(i as int),
                sep,
            ),
        decreases n - i,
    {
        let ghost before = r@;
        let ghost done = r@.map_values(f).push(s@.subrange(start as int, i as int));
        proof {
            assert(s@.take(i + 1).drop_last() =~= s@.take(i as int));
            assert(s@.take(i + 1).last() == s@[i as int]);
            assert(done.drop_last() =~= before.map_values(f));
        }
        if s.get_char(i) == sep {
            r.push(s.substring_char(start, i));
            start = i + 1;
            proof {
                assert(r@.map_values(f) =~= done);
                assert(s@.subrange(start as int, i + 1) =~= Seq::empty());
            }
        } else {
            proof {
                assert(s@.subrange(start as int, i + 1) =~= s@.subrange(
                    start as int,
                    i as int,
                ).push(s@[i as int]));
            }
        }
        i = i + 1;
    }
    proof {
        assert(s@.take(n as int) =~= s@);
    }
    let ghost before = r@;
    r.push(s.substring_char(start, n));
    proof {
        assert(r@.map_values(f) =~= before.map_values(f).push(
            s@.subrange(start as int, n as int),
        ));
    }
    r
}

/// The first place where `..` stands in `s`.
pub open spec fn dots_at(s: Seq<char>, i: int) -> bool {
    &&& 0 <= i < s.len() - 1
    &&& s[i] == '.' && s[i + 1] == '.'
    &&& forall|k: int| 0 <= k < i ==> !(#[trigger] s[k] == '.' && s[k + 1] == '.')
}

/// Where `..` first stands in `s`, if it does.
pub fn find_dots(s: &str) -> (r: Option<usize>)
    ensures
        match r {
            Some(i) => dots_at(s@, i as int),
            None => forall|i: int| !(#[trigger] dots_at(s@, i)),
        },
{
    let n: usize = s.unicode_len();
    let mut i: usize = 0;
    while i + 1 < n
        invariant
            n == s@.len(),
            i < n || i == 0,
            forall|k: int| 0 <= k < i ==> !(#[trigger] s@[k] == '.' && s@[k + 1] == '.'),
        decreases n - i,
    {
        if s.get_char(i) == '.' && s.get_char(i + 1) == '.' {
            return Some(i);
        }
        i = i + 1;
    }
    None
}

/// The number that the digit `c` stands for.
pub open spec fn digit(c: char) -> Option<nat> {
    if '0' <= c && c <= '9' {
        Some((c as u32 - '0' as u32) as nat)
    } else {
        None
    }
}

/// The number that a row of decimal digits stands for. No digit at all stands
/// for zero.
pub open spec fn digits(s: Seq<char>) -> Option<nat>
    decreases s.len(),
{
    if s.len() == 0 {
        Some(0)
    } else {
        match (digits(s.drop_last()), digit(s.last())) {
            (Some(front), Some(d)) => Some(front * 10 + d),
            _ => None,
        }
    }
}

/// The number of at most `max` that a text spells: decimal digits, at least
/// one, with a plus sign before them or without.
pub open spec fn number(s: Seq<char>, max: nat) -> Option<nat> {
    let body = if s.len() > 1 && s[0] == '+' {
        s.drop_first()
    } else {
        s
    };
    match digits(body) {
        Some(n) => if body.len() > 0 && n <= max {
            Some(n)
        } else {
            None
        },
        None => None,
    }
}

proof fn lemma_digits_prefix(s: Seq<char>, i: int)
    requires
        0 <= i <= s.len(),
        digits(s) is Some,
    ensures
        digits(s.take(i)) is Some,
        digits(s.take(i))->0 <= digits(s)->0,
    decreases s.len(),
{
    if i < s.len() {
        lemma_digits_prefix(s.drop_last(), i);
        assert(s.drop_last().take(i) =~= s.take(i));
    } else {
        assert(s.take(i) =~= s);
    }
}

/// The number of at most `max` that a text spells.
pub fn parse_number(s: &str, max: u64) -> (r: Option<u64>)
    ensures
        match (r, number(s@, max as nat)) {
            (Some(v), Some(n)) => v == n,
            (None, None) => true,
            _ => false,
        },
{
    let n: usize = s.unicode_len();
    let start: usize = if n > 1 && s.get_char(0) == '+' {
        1
    } else {
        0
    };
    let ghost body = s@.skip(start as int);
    proof {
        assert(s@.skip(0) =~= s@);
        assert(s@.len() > 0 ==> s@.skip(1) =~= s@.drop_first());
    }
    if start == n {
        return None;
    }
    let mut v: u64 = 0;
    let mut i: usize = start;
    proof {
        assert(body.take(0) =~= Seq::empty());
    }
    while i < n
        invariant
            start <= i <= n == s@.len(),
            start < n,
            body == s@.skip(start as int),
            body.len() > 0,
            number(s@, max as nat) == match digits(body) {
                Some(n) => if n <= max {
                    Some(n)
                } else {
                    None
                },
                None => None,
            },
            digits(body.take(i - start)) == Some(v as nat),
            v <= max,
        decreases n - i,
    {
        let c = s.get_char(i);
        proof {
            let t = body.take(i + 1 - start);
            assert(t.drop_last() =~= body.take(i - start));
            assert(t.last() == c);
            if digits(body) is Some {
                lemma_digits_prefix(body, i + 1 - start);
            }
        }
        if !('0' <= c && c <= '9') {
            return None;
        }
        let d: u64 = (c as u32 - '0' as u32) as u64;
        if d > max || v > (max - d) / 10 {
            proof {
                assert(v * 10 + d > max);
            }
            return None;
        }
        v = v * 10 + d;
        i = i + 1;
    }
    proof {
        assert(body.take(i - start) =~= body);
    }
    Some(v)
}

proof fn lemma_dec_digits(n: nat)
    ensures
        digits(dec(n)) == Some(n),
        dec(n).len() > 0,
        dec(n)[0] != '+',
    decreases n,
{
    if n < 10 {
        assert(dec(n).drop_last() =~= Seq::empty());
        assert(digits(dec(n).drop_last()) == Some(0nat));
    } else {
        lemma_dec_digits(n / 10);
        assert(dec(n).drop_last() =~= dec(n / 10));
        assert(dec(n)[0] == dec(n / 10)[0]);
    }
}

/// A number written in decimal is read back.
pub proof fn decimal_reads_back(n: nat, max: nat)
    requires
        n <= max,
    ensures
        number(dec(n), max) == Some(n),
{
    lemma_dec_digits(n);
}

// ── Laws of reading text ─────────────────────────────────────────
proof fn lemma_trimmed_front(s: Seq<char>)
    ensures
        exists|n: int|
            0 <= n <= s.len() && #[trigger] s.skip(n) == trimmed_front(s) && forall|i: int|
                0 <= i < n ==> is_white(#[trigger] s[i]),
        trimmed_front(s).len() > 0 ==> !is_white(trimmed_front(s)[0]),
    decreases s.len(),
{
    if s.len() > 0 && is_white(s[0]) {
        let rest = s.drop_first();
        lemma_trimmed_front(rest);
        let n = choose|n: int|
            0 <= n <= rest.len() && #[trigger] rest.skip(n) == trimmed_front(rest) && forall|i: int|
                0 <= i < n ==> is_white(#[trigger] rest[i]);
        assert(s.skip(n + 1) =~= rest.skip(n));
        assert forall|i: int| 0 <= i < n + 1 implies is_white(#[trigger] s[i]) by {
            if i > 0 {
                assert(rest[i - 1] == s[i]);
            }
        }
    } else {
        assert(s.skip(0) =~= s);
    }
}

proof fn lemma_trimmed_back(s: Seq<char>)
    ensures
        exists|n: int|
            0 <= n <= s.len() && #[trigger] s.take(n) == trimmed_back(s) && forall|i: int|
                n <= i < s.len() ==> is_white(#[trigger] s[i]),
        trimmed_back(s).len() > 0 ==> !is_white(trimmed_back(s).last()),
    decreases s.len(),
{
    if s.len() > 0 && is_white(s.last()) {
        let rest = s.drop_last();
        lemma_trimmed_back(rest);
        let n = choose|n: int|
            0 <= n <= rest.len() && #[trigger] rest.take(n) == trimmed_back(rest) && forall|i: int|
                n <= i < rest.len() ==> is_white(#[trigger] rest[i]);
        assert(s.take(n) =~= rest.take(n));
        assert forall|i: int| n <= i < s.len() implies is_white(#[trigger] s[i]) by {
            if i < rest.len() {
                assert(rest[i] == s[i]);
            }
        }
    } else {
        assert(s.take(s.len() as int) =~= s);
    }
}

/// Trimming takes white space from both ends and nothing else: what is left
/// stands in the text with only white space around it, and neither begins nor
/// ends with white space.
pub proof fn trimming_takes_only_outer_white_space(s: Seq<char>)
    ensures
        exists|a: int, b: int|
            0 <= a <= b <= s.len() && #[trigger] s.subrange(a, b) == trimmed(s) && (forall|i: int|
                0 <= i < s.len() && !(a <= i < b) ==> is_white(#[trigger] s[i])),
        trimmed(s).len() > 0 ==> !is_white(trimmed(s)[0]) && !is_white(trimmed(s).last()),
{
    let front = trimmed_front(s);
    lemma_trimmed_front(s);
    lemma_trimmed_back(front);
    let a = choose|n: int|
        0 <= n <= s.len() && #[trigger] s.skip(n) == front && forall|i: int|
            0 <= i < n ==> is_white(#[trigger] s[i]);
    let n = choose|n: int|
        0 <= n <= front.len() && #[trigger] front.take(n) == trimmed_back(front) && forall|i: int|
            n <= i < front.len() ==> is_white(#[trigger] front[i]);
    assert(s.subrange(a, a + n) =~= trimmed(s));
    assert forall|i: int| 0 <= i < s.len() && !(a <= i < a + n) implies is_white(
        #[trigger] s[i],
    ) by {
        if i >= a + n {
            assert(front[i - a] == s[i]);
        }
    }
    if trimmed(s).len() > 0 {
        assert(trimmed(s)[0] == front[0]);
    }
}

/// A text without white space at its ends is trimmed already.
pub proof fn trimmed_text_stays(s: Seq<char>)
    requires
        s.len() > 0 ==> !is_white(s[0]) && !is_white(s.last()),
    ensures
        trimmed(s) == s,
{
}

/// The pieces, with the separator between each two of them.
pub open spec fn rejoined(parts: Seq<Seq<char>>, sep: char) -> Seq<char>
    decreases parts.len(),
{
    if parts.len() == 0 {
        Seq::empty()
    } else if parts.len() == 1 {
        parts[0]
    } else {
        rejoined(parts.drop_last(), sep).push(sep) + parts.last()
    }
}

/// Splitting cuts a text at its separators and only there: no piece holds one,
/// and put together again with separators between them the pieces are the
/// text.
pub proof fn pieces_make_up_the_text(s: Seq<char>, sep: char)
    ensures
        pieces(s, sep).len() > 0,
        rejoined(pieces(s, sep), sep) == s,
        forall|i: int|
            0 <= i < pieces(s, sep).len() ==> !(#[trigger] pieces(s, sep)[i]).contains(sep),
    decreases s.len(),
{
    let all = pieces(s, sep);
    if s.len() == 0 {
        assert(rejoined(all, sep) =~= s);
    } else {
        let before = s.drop_last();
        let front = pieces(before, sep);
        pieces_make_up_the_text(before, sep);
        if s.last() == sep {
            assert(all.drop_last() =~= front);
            assert(rejoined(all, sep) =~= s);
        } else {
            let last = front.last().push(s.last());
            assert(all.drop_last() =~= front.drop_last());
            assert(all.last() == last);
            assert(!front[front.len() - 1].contains(sep));
            assert(!last.contains(sep)) by {
                if last.contains(sep) {
                    let k = choose|k: int| 0 <= k < last.len() && last[k] == sep;
                    if k < front.last().len() {
                        assert(front.last()[k] == sep);
                        assert(front.last().contains(sep));
                    }
                }
            }
            assert(rejoined(all, sep) =~= s) by {
                if front.len() == 1 {
                    assert(front[0] == front.last());
                    assert(all[0] == last);
                    assert(rejoined(front, sep) == front[0]);
                    assert(front[0].push(s.last()) =~= s);
                } else {
                    let rest = rejoined(front.drop_last(), sep).push(sep);
                    assert(rejoined(front, sep) == rest + front.last());
                    assert(rejoined(all, sep) == rest + last);
                    assert(rest + last =~= (rest + front.last()).push(s.last()));
                    assert(before.push(s.last()) =~= s);
                }
            }
        }
        assert forall|i: int| 0 <= i < all.len() implies !(#[trigger] all[i]).contains(sep) by {
            if i < front.len() - 1 || (s.last() == sep && i < front.len()) {
                assert(all[i] == front[i]);
            }
        }
    }
}

/// The pieces of two texts with a separator between them are the pieces of the
/// first and then those of the second.
pub proof fn separator_parts_the_pieces(a: Seq<char>, b: Seq<char>, sep: char)
    ensures
        pieces(a.push(sep) + b, sep) == pieces(a, sep) + pieces(b, sep),
    decreases b.len(),
{
    let s = a.push(sep) + b;
    if b.len() == 0 {
        assert(s =~= a.push(sep));
        assert(s.drop_last() =~= a);
        assert(pieces(s, sep) =~= pieces(a, sep) + pieces(b, sep));
    } else {
        let front = b.drop_last();
        separator_parts_the_pieces(a, front, sep);
        assert(s.drop_last() =~= a.push(sep) + front);
        assert(s.last() == b.last());
        pieces_make_up_the_text(front, sep);
        assert(pieces(s, sep) =~= pieces(a, sep) + pieces(b, sep));
    }
}

/// A text without a separator is one piece.
pub proof fn text_without_separator_is_one_piece(s: Seq<char>, sep: char)
    requires
        !s.contains(sep),
    ensures
        pieces(s, sep) == seq![s],
    decreases s.len(),
{
    if s.len() > 0 {
        let front = s.drop_last();
        assert(s[s.len() - 1] == s.last());
        assert(s.contains(s.last()));
        assert forall|i: int| 0 <= i < front.len() implies #[trigger] front[i] != sep by {
            assert(s.contains(s[i]));
        }
        text_without_separator_is_one_piece(front, sep);
        assert(front.push(s.last()) =~= s);
        assert(seq![front].drop_last().push(s) =~= seq![s]);
    } else {
        assert(s =~= Seq::<char>::empty());
    }
}

proof fn lemma_digits_only(s: Seq<char>)
    ensures
        digits(s) is Some <==> forall|i: int|
            0 <= i < s.len() ==> '0' <= #[trigger] s[i] && s[i] <= '9',
    decreases s.len(),
{
    if s.len() > 0 {
        let front = s.drop_last();
        lemma_digits_only(front);
        assert(s[s.len() - 1] == s.last());
        assert forall|i: int| 0 <= i < front.len() implies front[i] == #[trigger] s[i] by {}
        if digits(front) is None {
            let i = choose|i: int|
                0 <= i < front.len() && !('0' <= #[trigger] front[i] && front[i] <= '9');
            assert(s[i] == front[i]);
        }
    }
}

/// A text spells a number only if it holds nothing but decimal digits, at least
/// one, behind at most one plus sign, and the number is within the bound. The
/// plus sign changes nothing.
pub proof fn only_digits_spell_a_number(s: Seq<char>, max: nat)
    ensures
        number(s, max) matches Some(n) ==> n <= max && s.len() > 0 && forall|i: int|
            0 < i < s.len() ==> '0' <= #[trigger] s[i] && s[i] <= '9',
        number(s, max) is Some && s[0] != '+' ==> '0' <= s[0] && s[0] <= '9',
        s.len() > 0 && s[0] != '+' ==> number(seq!['+'] + s, max) == number(s, max),
{
    lemma_digits_only(s);
    let signed = seq!['+'] + s;
    assert(signed.drop_first() =~= s);
    if s.len() > 1 && s[0] == '+' {
        let rest = s.drop_first();
        lemma_digits_only(rest);
        assert forall|i: int| 0 < i < s.len() implies rest[i - 1] == #[trigger] s[i] by {}
    }
}

/// A written number is a row of digits.
pub proof fn written_number_has_only_digits(n: nat)
    ensures
        dec(n).len() > 0,
        forall|i: int| 0 <= i < dec(n).len() ==> '0' <= #[trigger] dec(n)[i] && dec(n)[i] <= '9',
        trimmed(dec(n)) == dec(n),
    decreases n,
{
    if n >= 10 {
        written_number_has_only_digits(n / 10);
        let front = dec(n / 10);
        assert forall|i: int| 0 <= i < dec(n).len() implies '0' <= #[trigger] dec(n)[i] && dec(n)[i]
            <= '9' by {
            if i < front.len() {
                assert(dec(n)[i] == front[i]);
            }
        }
    }
    assert('0' <= dec(n)[0] && dec(n)[0] <= '9');
    assert('0' <= dec(n)[dec(n).len() - 1] && dec(n)[dec(n).len() - 1] <= '9');
    trimmed_text_stays(dec(n));
}

} // verus!
