//! Text as a sequence of characters: trimming, splitting, comparing, and
//! numbers in decimal.

use vstd::prelude::*;
use vstd::string::*;

verus! {

/// `String::push`: appends one character to the end of the string.
pub assume_specification[ String::push ](s: &mut String, c: char)
    ensures
        final(s)@ == old(s)@.push(c),
;

/// The characters with Unicode's `White_Space` property.
pub open spec fn is_space(c: char) -> bool {
    ||| '\u{9}' <= c <= '\u{d}'
    ||| c == '\u{20}'
    ||| c == '\u{85}'
    ||| c == '\u{a0}'
    ||| c == '\u{1680}'
    ||| '\u{2000}' <= c <= '\u{200a}'
    ||| c == '\u{2028}'
    ||| c == '\u{2029}'
    ||| c == '\u{202f}'
    ||| c == '\u{205f}'
    ||| c == '\u{3000}'
}

/// `s` without the white space it starts with.
pub open spec fn trim_start_model(s: Seq<char>) -> Seq<char>
    decreases s.len(),
{
    if s.len() > 0 && is_space(s[0]) {
        trim_start_model(s.skip(1))
    } else {
        s
    }
}

/// `s` without the white space it ends with.
pub open spec fn trim_end_model(s: Seq<char>) -> Seq<char>
    decreases s.len(),
{
    if s.len() > 0 && is_space(s.last()) {
        trim_end_model(s.drop_last())
    } else {
        s
    }
}

/// `s` without white space at either end.
pub open spec fn trim_model(s: Seq<char>) -> Seq<char> {
    trim_end_model(trim_start_model(s))
}

/// The pieces of `s` between occurrences of `sep`: one more than there are
/// occurrences.
pub open spec fn split_model<A>(s: Seq<A>, sep: A) -> Seq<Seq<A>>
    decreases s.len(),
{
    if s.len() == 0 {
        seq![Seq::<A>::empty()]
    } else if s.last() == sep {
        split_model(s.drop_last(), sep).push(Seq::<A>::empty())
    } else {
        let front = split_model(s.drop_last(), sep);
        front.drop_last().push(front.last().push(s.last()))
    }
}

/// The decimal digit for `d`, a number below ten.
pub open spec fn digit_model(d: nat) -> char {
    (48 + d) as char
}

/// `n` in decimal, without leading zeros.
pub open spec fn decimal_model(n: nat) -> Seq<char>
    decreases n,
{
    if n < 10 {
        seq![digit_model(n)]
    } else {
        decimal_model(n / 10).push(digit_model(n % 10))
    }
}

pub(crate) fn is_white_space(c: char) -> (r: bool)
    ensures
        r == is_space(c),
{
    ('\u{9}' <= c && c <= '\u{d}') || c == '\u{20}' || c == '\u{85}' || c == '\u{a0}' || c
        == '\u{1680}' || ('\u{2000}' <= c && c <= '\u{200a}') || c == '\u{2028}' || c == '\u{2029}'
        || c == '\u{202f}' || c == '\u{205f}' || c == '\u{3000}'
}

/// The characters of `s`, for access by index.
pub(crate) fn chars_of(s: &str) -> (r: Vec<char>)
    ensures
        r@ == s@,
{
    let mut out: Vec<char> = Vec::new();
    for c in it: s.chars()
        invariant
            out@ == s@.take(it.index() as int),
            it.seq() == s@,
    {
        proof {
            s@.lemma_take_succ_push(it.index() as int);
        }
        out.push(c);
    }
    proof {
        s@.lemma_take_len();
    }
    out
}

/// The string that holds `chars[from..to]`.
pub(crate) fn string_of(chars: &Vec<char>, from: usize, to: usize) -> (r: String)
    requires
        from <= to <= chars@.len(),
    ensures
        r@ == chars@.subrange(from as int, to as int),
{
    let mut out = String::new();
    let mut i: usize = from;
    while i < to
        invariant
            from <= i <= to <= chars@.len(),
            out@ == chars@.subrange(from as int, i as int),
        decreases to - i,
    {
        out.push(chars[i]);
        i = i + 1;
    }
    out
}

pub(crate) fn same_chars(a: &Vec<char>, b: &Vec<char>) -> (r: bool)
    ensures
        r == (a@ == b@),
{
    if a.len() != b.len() {
        return false;
    }
    let mut i: usize = 0;
    while i < a.len()
        invariant
            i <= a@.len() == b@.len(),
            forall|j: int| 0 <= j < i ==> a@[j] == b@[j],
        decreases a.len() - i,
    {
        if a[i] != b[i] {
            return false;
        }
        i = i + 1;
    }
    assert(a@ =~= b@);
    true
}

/// Whether two strings hold the same characters.
pub(crate) fn same_text(a: &str, b: &str) -> (r: bool)
    ensures
        r == (a@ == b@),
{
    same_chars(&chars_of(a), &chars_of(b))
}

/// `a` followed by `b`.
pub(crate) fn join(a: &str, b: &str) -> (r: String)
    ensures
        r@ == a@ + b@,
{
    let mut out = a.to_owned();
    out.append(b);
    out
}

/// `a`, `b` and `c` in a row.
pub(crate) fn join3(a: &str, b: &str, c: &str) -> (r: String)
    ensures
        r@ == a@ + b@ + c@,
{
    let mut out = join(a, b);
    out.append(c);
    out
}

proof fn lemma_trim_start_from(s: Seq<char>, i: int)
    requires
        0 <= i <= s.len(),
        forall|j: int| 0 <= j < i ==> is_space(s[j]),
    ensures
        trim_start_model(s) == trim_start_model(s.skip(i)),
    decreases i,
{
    if i == 0 {
        assert(s.skip(0) =~= s);
    } else {
        lemma_trim_start_from(s.skip(1), i - 1);
        assert(s.skip(1).skip(i - 1) =~= s.skip(i));
    }
}

proof fn lemma_trim_end_from(s: Seq<char>, i: int)
    requires
        0 <= i <= s.len(),
        forall|j: int| i <= j < s.len() ==> is_space(s[j]),
    ensures
        trim_end_model(s) == trim_end_model(s.take(i)),
    decreases s.len() - i,
{
    if i == s.len() {
        assert(s.take(i) =~= s);
    } else {
        lemma_trim_end_from(s.drop_last(), i);
        assert(s.drop_last().take(i) =~= s.take(i));
    }
}

/// `s` without white space at either end.
pub fn trim(s: &str) -> (r: String)
    ensures
        r@ == trim_model(s@),
{
    let chars = chars_of(s);
    let mut from: usize = 0;
    while from < chars.len() && is_white_space(chars[from])
        invariant
            from <= chars@.len(),
            forall|j: int| 0 <= j < from ==> is_space(chars@[j]),
        decreases chars.len() - from,
    {
        from = from + 1;
    }
    let mut to: usize = chars.len();
    while from < to && is_white_space(chars[to - 1])
        invariant
            from <= to <= chars@.len(),
            forall|j: int| to <= j < chars@.len() ==> is_space(chars@[j]),
        decreases to,
    {
        to = to - 1;
    }
    proof {
        let all = chars@;
        lemma_trim_start_from(all, from as int);
        let rest = all.skip(from as int);
        lemma_trim_end_from(rest, to - from);
        assert(rest.take(to - from) =~= all.subrange(from as int, to as int));
    }
    string_of(&chars, from, to)
}

/// Splitting never yields an empty list of pieces.
pub proof fn lemma_split_nonempty<A>(s: Seq<A>, sep: A)
    ensures
        split_model(s, sep).len() > 0,
    decreases s.len(),
{
    if s.len() > 0 {
        lemma_split_nonempty(s.drop_last(), sep);
    }
}

/// The characters of each string, in order.
pub open spec fn texts_model(texts: Seq<String>) -> Seq<Seq<char>> {
    texts.map_values(|t: String| t@)
}

/// The characters of a text, if there is one.
pub open spec fn opt_text(s: Option<&str>) -> Option<Seq<char>> {
    match s {
        Some(t) => Some(t@),
        None => None,
    }
}

/// The pieces of `s` between occurrences of `sep`.
pub(crate) fn split(s: &str, sep: char) -> (r: Vec<String>)
    ensures
        texts_model(r@) == split_model(s@, sep),
{
    let chars = chars_of(s);
    let mut done: Vec<String> = Vec::new();
    let mut piece = String::new();
    let mut i: usize = 0;
    proof {
        assert(chars@.take(0) =~= Seq::empty());
        assert(texts_model(done@).push(piece@) =~= split_model(chars@.take(0), sep));
    }
    while i < chars.len()
        invariant
            i <= chars@.len(),
            texts_model(done@).push(piece@) == split_model(chars@.take(i as int), sep),
        decreases chars.len() - i,
    {
        let ghost front = split_model(chars@.take(i as int), sep);
        let ghost next = chars@.take(i + 1);
        proof {
            assert(next.drop_last() =~= chars@.take(i as int));
            assert(next.last() == chars@[i as int]);
            assert(front.drop_last() =~= texts_model(done@));
            assert(front.last() == piece@);
        }
        if chars[i] == sep {
            done.push(piece);
            proof {
                assert(texts_model(done@) =~= front);
            }
            piece = String::new();
        } else {
            piece.push(chars[i]);
        }
        i = i + 1;
    }
    proof {
        assert(chars@.take(i as int) =~= chars@);
    }
    let ghost before = done@;
    let ghost last = piece@;
    done.push(piece);
    proof {
        assert(texts_model(done@) =~= texts_model(before).push(last));
    }
    done
}

/// `n` in decimal.
pub fn decimal(n: u64) -> (r: String)
    ensures
        r@ == decimal_model(n as nat),
    decreases n,
{
    let d: u8 = (n % 10) as u8;
    let c: char = (48u8 + d) as char;
    let mut out = if n < 10 {
        String::new()
    } else {
        decimal(n / 10)
    };
    out.push(c);
    assert(out@ =~= decimal_model(n as nat));
    out
}

/// Trimming drops exactly the padding: white space around a text that neither
/// starts nor ends with white space.
pub proof fn law_trim_drops_the_padding(before: Seq<char>, text: Seq<char>, after: Seq<char>)
    requires
        forall|i: int| 0 <= i < before.len() ==> is_space(#[trigger] before[i]),
        forall|i: int| 0 <= i < after.len() ==> is_space(#[trigger] after[i]),
        text.len() > 0 ==> !is_space(text[0]) && !is_space(text.last()),
    ensures
        trim_model(before + text + after) == text,
{
    let s = before + text + after;
    let n = before.len() as int;
    assert forall|j: int| 0 <= j < n implies is_space(s[j]) by {
        assert(s[j] == before[j]);
    }
    lemma_trim_start_from(s, n);
    let rest = s.skip(n);
    assert(rest =~= text + after);
    if text.len() > 0 {
        assert(rest[0] == text[0]);
        assert(trim_start_model(s) == rest);
        let m = text.len() as int;
        assert forall|j: int| m <= j < rest.len() implies is_space(rest[j]) by {
            assert(rest[j] == after[j - m]);
        }
        lemma_trim_end_from(rest, m);
        assert(rest.take(m) =~= text);
    } else {
        assert(rest =~= after);
        lemma_trim_start_from(rest, rest.len() as int);
        assert(rest.skip(rest.len() as int) =~= Seq::empty());
        assert(trim_start_model(s) =~= Seq::empty());
        assert(trim_model(s) =~= text);
    }
}

/// The characters that count as white space, by their code points.
pub proof fn law_white_space_by_code_point(c: char)
    ensures
        is_space(c) <==> {
            let n = c as int;
            ||| 9 <= n <= 13
            ||| n == 32
            ||| n == 133
            ||| n == 160
            ||| n == 5760
            ||| 8192 <= n <= 8202
            ||| n == 8232
            ||| n == 8233
            ||| n == 8239
            ||| n == 8287
            ||| n == 12288
        },
{
}

/// Pieces with a separator between each two.
pub open spec fn joined<A>(pieces: Seq<Seq<A>>, sep: A) -> Seq<A>
    decreases pieces.len(),
{
    if pieces.len() == 0 {
        Seq::empty()
    } else if pieces.len() == 1 {
        pieces[0]
    } else {
        joined(pieces.drop_last(), sep).push(sep) + pieces.last()
    }
}

proof fn lemma_joined_grows<A>(pieces: Seq<Seq<A>>, sep: A, a: A)
    requires
        pieces.len() > 0,
    ensures
        joined(pieces.drop_last().push(pieces.last().push(a)), sep) == joined(pieces, sep).push(a),
{
    let grown = pieces.drop_last().push(pieces.last().push(a));
    assert(grown.drop_last() =~= pieces.drop_last());
    if pieces.len() > 1 {
        let front = joined(pieces.drop_last(), sep).push(sep);
        assert(front + pieces.last().push(a) =~= (front + pieces.last()).push(a));
    }
}

/// Splitting is undone by joining, and no piece holds the separator: nothing is
/// lost between the pieces, and nothing is left unsplit.
pub proof fn law_split_joins_back<A>(s: Seq<A>, sep: A)
    ensures
        joined(split_model(s, sep), sep) == s,
        forall|i: int|
            0 <= i < split_model(s, sep).len() ==> !(#[trigger] split_model(s, sep)[i]).contains(
                sep,
            ),
    decreases s.len(),
{
    let pieces = split_model(s, sep);
    if s.len() == 0 {
        assert(joined(pieces, sep) =~= s);
    } else {
        let front = split_model(s.drop_last(), sep);
        lemma_split_nonempty(s.drop_last(), sep);
        law_split_joins_back(s.drop_last(), sep);
        if s.last() == sep {
            assert(pieces.drop_last() =~= front);
            assert(joined(pieces, sep) =~= s);
        } else {
            lemma_joined_grows(front, sep, s.last());
            assert(s.drop_last().push(s.last()) =~= s);
            assert forall|i: int| 0 <= i < pieces.len() implies !(#[trigger] pieces[i]).contains(
                sep,
            ) by {
                if i < pieces.len() - 1 {
                    assert(pieces[i] == front[i]);
                } else {
                    let last = front[front.len() - 1];
                    assert(pieces[i] == last.push(s.last()));
                    assert forall|k: int| 0 <= k < pieces[i].len() implies pieces[i][k] != sep by {
                        if k < last.len() {
                            assert(!last.contains(sep));
                            assert(last[k] != sep);
                        }
                    }
                }
            }
        }
    }
}

/// The number that digits stand for, read from the left.
pub open spec fn read_digits(digits: Seq<char>) -> int
    decreases digits.len(),
{
    if digits.len() == 0 {
        0
    } else {
        10 * read_digits(digits.drop_last()) + (digits.last() as int - '0' as int)
    }
}

/// A number in decimal is digits alone, reads back as the number, and starts
/// with a zero only where it is zero.
pub proof fn law_decimal_reads_back(n: nat)
    ensures
        decimal_model(n).len() > 0,
        forall|i: int|
            0 <= i < decimal_model(n).len() ==> '0' <= #[trigger] decimal_model(n)[i] <= '9',
        read_digits(decimal_model(n)) == n,
        n > 0 ==> decimal_model(n)[0] != '0',
        n == 0 ==> decimal_model(n).len() == 1,
    decreases n,
{
    let s = decimal_model(n);
    if n < 10 {
        assert(s.drop_last() =~= Seq::empty());
        assert(s.last() == digit_model(n));
        reveal_with_fuel(read_digits, 2);
    } else {
        law_decimal_reads_back(n / 10);
        assert(s.drop_last() =~= decimal_model(n / 10));
        assert(s.last() == digit_model(n % 10));
        assert(s[0] == decimal_model(n / 10)[0]);
        assert forall|i: int| 0 <= i < s.len() implies '0' <= #[trigger] s[i] <= '9' by {
            if i < s.len() - 1 {
                assert(s[i] == decimal_model(n / 10)[i]);
            }
        }
    }
}

/// An optional text stands for its own characters, and nothing for nothing.
pub proof fn law_optional_texts_are_told_apart(a: &str, b: Option<&str>)
    ensures
        opt_text(Some(a)) == Some(a@),
        opt_text(b) is Some <==> b is Some,
{
}

} // verus!
