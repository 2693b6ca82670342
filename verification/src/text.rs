//! Text handling over the characters of a string.
use vstd::prelude::*;
use vstd::string::*;

verus! {

/// Whether two strings hold the same characters.
pub fn same_text(a: &str, b: &str) -> (r: bool)
    ensures
        r == (a@ == b@),
{
    a.to_owned() == b.to_owned()
}

/// The characters of a string, in order.
pub fn chars_of(s: &str) -> (r: Vec<char>)
    ensures
        r@ == s@,
{
    let mut out: Vec<char> = Vec::new();
    for c in it: s.chars()
        invariant
            out@ == s@.take(it.index() as int),
            it.seq() == s@,
    {
        out.push(c);
        assert(s@.take(it.index() as int).push(c) =~= s@.take(it.index() as int + 1));
    }
    assert(s@.take(s@.len() as int) =~= s@);
    out
}

/// The character that writes a digit below ten.
pub open spec fn digit_char(d: nat) -> char {
    (('0' as u32) + d) as char
}

/// A number written in decimal, without leading zeros.
pub open spec fn decimal_text(n: nat) -> Seq<char>
    decreases n,
{
    if n < 10 {
        seq![digit_char(n)]
    } else {
        decimal_text(n / 10).push(digit_char(n % 10))
    }
}

fn digit_text(d: usize) -> (r: &'static str)
    requires
        d < 10,
    ensures
        r@ == seq![digit_char(d as nat)],
{
    proof {
        reveal_strlit("0");
        reveal_strlit("1");
        reveal_strlit("2");
        reveal_strlit("3");
        reveal_strlit("4");
        reveal_strlit("5");
        reveal_strlit("6");
        reveal_strlit("7");
        reveal_strlit("8");
        reveal_strlit("9");
    }
    match d {
        0 => "0",
        1 => "1",
        2 => "2",
        3 => "3",
        4 => "4",
        5 => "5",
        6 => "6",
        7 => "7",
        8 => "8",
        _ => "9",
    }
}

/// Writes a number in decimal.
pub fn decimal(n: usize) -> (r: String)
    ensures
        r@ == decimal_text(n as nat),
    decreases n,
{
    if n < 10 {
        digit_text(n).to_owned()
    } else {
        let mut r = decimal(n / 10);
        r.append(digit_text(n % 10));
        assert(r@ =~= decimal_text(n as nat));
        r
    }
}

/// The first `n` characters of a string, or all of it when it is shorter.
pub open spec fn leading_text(s: Seq<char>, n: nat) -> Seq<char> {
    if s.len() <= n {
        s
    } else {
        s.take(n as int)
    }
}

/// The first `n` characters of a string, or all of it when it is shorter.
pub fn leading(s: &str, n: usize) -> (r: &str)
    ensures
        r@ == leading_text(s@, n as nat),
{
    let len: usize = s.unicode_len();
    let end: usize = if len <= n { len } else { n };
    assert(s@.subrange(0, s@.len() as int) =~= s@);
    s.substring_char(0, end)
}

/// Whether a string begins with `prefix`.
pub fn begins_with(s: &str, prefix: &str) -> (r: bool)
    ensures
        r == prefix@.is_prefix_of(s@),
{
    let want: usize = prefix.unicode_len();
    if s.unicode_len() < want {
        return false;
    }
    let head = s.substring_char(0, want);
    assert(prefix@.is_prefix_of(s@) == (head@ =~= prefix@));
    same_text(head, prefix)
}

/// What stands between `prefix` and `suffix` in `s`, where `s` is made of the three.
pub open spec fn inner_text(s: Seq<char>, prefix: Seq<char>, suffix: Seq<char>) -> Option<
    Seq<char>,
> {
    if prefix.len() + suffix.len() <= s.len() && prefix.is_prefix_of(s) && suffix.is_suffix_of(s) {
        Some(s.subrange(prefix.len() as int, s.len() - suffix.len()))
    } else {
        None
    }
}

/// What stands between `prefix` and `suffix` in `s`, where `s` is made of the three.
pub fn inner(s: &str, prefix: &str, suffix: &str) -> (r: Option<String>)
    ensures
        r.deep_view() == inner_text(s@, prefix@, suffix@),
{
    let len: usize = s.unicode_len();
    let head: usize = prefix.unicode_len();
    let tail: usize = suffix.unicode_len();
    if head > len || tail > len - head {
        return None;
    }
    if !begins_with(s, prefix) {
        return None;
    }
    let end = s.substring_char(len - tail, len);
    assert(suffix@.is_suffix_of(s@) == (end@ =~= suffix@));
    if !same_text(end, suffix) {
        return None;
    }
    Some(s.substring_char(head, len - tail).to_owned())
}

/// Whether `part` stands in `s` from position `at` on.
pub open spec fn stands_at(s: Seq<char>, part: Seq<char>, at: int) -> bool {
    0 <= at && at + part.len() <= s.len() && s.subrange(at, at + part.len()) == part
}

/// Whether `part` stands somewhere in `s`.
pub open spec fn holds_text(s: Seq<char>, part: Seq<char>) -> bool {
    exists|at: int| stands_at(s, part, at)
}

/// Whether `part` stands somewhere in `s`.
pub fn holds(s: &str, part: &str) -> (r: bool)
    ensures
        r == holds_text(s@, part@),
{
    let len: usize = s.unicode_len();
    let want: usize = part.unicode_len();
    if want > len {
        return false;
    }
    let mut at: usize = 0;
    while at <= len - want
        invariant
            len == s@.len(),
            want == part@.len(),
            want <= len,
            at <= len - want + 1,
            forall|k: int| 0 <= k < at ==> !stands_at(s@, part@, k),
        decreases len - at,
    {
        if same_text(s.substring_char(at, at + want), part) {
            assert(stands_at(s@, part@, at as int));
            return true;
        }
        if at == len - want {
            assert(forall|k: int| !stands_at(s@, part@, k));
            return false;
        }
        at += 1;
    }
    false
}

/// Pieces put together again, with `sep` between neighbours.
pub open spec fn joined_text(pieces: Seq<Seq<char>>, sep: Seq<char>) -> Seq<char>
    decreases pieces.len(),
{
    if pieces.len() == 0 {
        Seq::empty()
    } else if pieces.len() == 1 {
        pieces[0]
    } else {
        joined_text(pieces.drop_last(), sep) + sep + pieces.last()
    }
}

/// What lies between the separators of `s`: one piece more than there are separators.
pub open spec fn split_text(s: Seq<char>, sep: char) -> Seq<Seq<char>>
    decreases s.len(),
{
    if s.len() == 0 {
        seq![Seq::empty()]
    } else {
        let before = split_text(s.drop_last(), sep);
        if s.last() == sep {
            before.push(Seq::empty())
        } else {
            before.drop_last().push(before.last().push(s.last()))
        }
    }
}

/// Splitting loses nothing: the pieces, put together with the separator between them, are the
/// string again, and no piece holds the separator.
pub proof fn law_split_rejoins(s: Seq<char>, sep: char)
    ensures
        split_text(s, sep).len() > 0,
        joined_text(split_text(s, sep), seq![sep]) == s,
        forall|k: int|
            0 <= k < split_text(s, sep).len() ==> !(#[trigger] split_text(s, sep)[k]).contains(sep),
    decreases s.len(),
{
    if s.len() > 0 {
        law_split_rejoins(s.drop_last(), sep);
        let before = split_text(s.drop_last(), sep);
        let now = split_text(s, sep);
        if s.last() == sep {
            assert(now.drop_last() =~= before);
            assert(joined_text(now, seq![sep]) =~= s);
        } else {
            assert(now.drop_last() =~= before.drop_last());
            assert(joined_text(now, seq![sep]) =~= joined_text(before, seq![sep]).push(s.last()));
            assert(s.drop_last().push(s.last()) =~= s);
            assert forall|k: int| 0 <= k < now.len() implies !(#[trigger] now[k]).contains(sep) by {
                if k == now.len() - 1 {
                    assert(!before[k].contains(sep));
                    assert(forall|j: int| 0 <= j < before[k].len() ==> before[k][j] != sep);
                } else {
                    assert(now[k] == before[k]);
                }
            }
        }
    }
}

/// Cuts a string at every `sep`.
pub fn split(s: &str, sep: char) -> (r: Vec<String>)
    ensures
        r.deep_view() == split_text(s@, sep),
{
    let cs = chars_of(s);
    let mut out: Vec<String> = Vec::new();
    let mut start: usize = 0;
    let mut i: usize = 0;
    assert(s@.subrange(0, 0) =~= Seq::<char>::empty());
    assert(out.deep_view().push(s@.subrange(0, 0)) =~= split_text(s@.take(0), sep));
    while i < cs.len()
        invariant
            cs@ == s@,
            start <= i <= cs.len(),
            out.deep_view().push(s@.subrange(start as int, i as int)) == split_text(
                s@.take(i as int),
                sep,
            ),
        decreases cs.len() - i,
    {
        let ghost before = out.deep_view();
        let ghost piece = s@.subrange(start as int, i as int);
        assert(s@.take(i + 1).drop_last() =~= s@.take(i as int));
        if cs[i] == sep {
            out.push(s.substring_char(start, i).to_owned());
            start = i + 1;
            assert(out.deep_view() =~= before.push(piece));
            assert(s@.subrange(start as int, i + 1) =~= Seq::<char>::empty());
        } else {
            assert(s@.subrange(start as int, i + 1) =~= piece.push(s@[i as int]));
            assert(before.push(piece).drop_last() =~= before);
        }
        i += 1;
    }
    let ghost before = out.deep_view();
    out.push(s.substring_char(start, i).to_owned());
    assert(out.deep_view() =~= before.push(s@.subrange(start as int, i as int)));
    assert(s@.take(i as int) =~= s@);
    out
}

/// The characters with Unicode's `White_Space` property.
pub open spec fn is_white(c: char) -> bool {
    ||| '\u{9}' <= c <= '\u{d}'
    ||| c == ' '
    ||| c == '\u{85}'
    ||| c == '\u{a0}'
    ||| c == '\u{1680}'
    ||| '\u{2000}' <= c <= '\u{200a}'
    ||| c == '\u{2028}'
    ||| c == '\u{2029}'
    ||| c == '\u{202f}'
    ||| c == '\u{205f}'
    ||| c == '\u{3000}'
}

/// Whether a character has Unicode's `White_Space` property.
pub fn white(c: char) -> (r: bool)
    ensures
        r == is_white(c),
{
    ('\u{9}' <= c && c <= '\u{d}') || c == ' ' || c == '\u{85}' || c == '\u{a0}' || c == '\u{1680}'
        || ('\u{2000}' <= c && c <= '\u{200a}') || c == '\u{2028}' || c == '\u{2029}'
        || c == '\u{202f}' || c == '\u{205f}' || c == '\u{3000}'
}

/// `s` without the white space that it begins with.
pub open spec fn without_leading_white(s: Seq<char>) -> Seq<char>
    decreases s.len(),
{
    if s.len() > 0 && is_white(s[0]) {
        without_leading_white(s.drop_first())
    } else {
        s
    }
}

/// `s` without the white space that it ends with.
pub open spec fn without_trailing_white(s: Seq<char>) -> Seq<char>
    decreases s.len(),
{
    if s.len() > 0 && is_white(s.last()) {
        without_trailing_white(s.drop_last())
    } else {
        s
    }
}

/// `s` without the white space at both ends.
pub open spec fn trimmed_text(s: Seq<char>) -> Seq<char> {
    without_trailing_white(without_leading_white(s))
}

/// Takes the white space off both ends of a string.
pub fn trim(s: &str) -> (r: String)
    ensures
        r@ == trimmed_text(s@),
{
    let cs = chars_of(s);
    let mut from: usize = 0;
    assert(s@.skip(0) =~= s@);
    while from < cs.len() && white(cs[from])
        invariant
            cs@ == s@,
            from <= cs.len(),
            without_leading_white(s@.skip(from as int)) == without_leading_white(s@),
        decreases cs.len() - from,
    {
        assert(s@.skip(from as int).drop_first() =~= s@.skip(from + 1));
        from += 1;
    }
    let ghost rest = s@.skip(from as int);
    let mut to: usize = cs.len();
    assert(s@.subrange(from as int, to as int) =~= rest);
    while from < to && white(cs[to - 1])
        invariant
            cs@ == s@,
            from <= to <= cs.len(),
            without_trailing_white(s@.subrange(from as int, to as int)) == without_trailing_white(
                rest,
            ),
        decreases to,
    {
        assert(s@.subrange(from as int, to as int).drop_last() =~= s@.subrange(
            from as int,
            to - 1,
        ));
        to -= 1;
    }
    s.substring_char(from, to).to_owned()
}

/// Whether `x` is one of the strings in `list`.
pub fn lists(list: &Vec<String>, x: &String) -> (r: bool)
    ensures
        r == list.deep_view().contains(x@),
{
    let mut i: usize = 0;
    while i < list.len()
        invariant
            i <= list.len(),
            forall|k: int| 0 <= k < i ==> list.deep_view()[k] != x@,
        decreases list.len() - i,
    {
        if list[i] == *x {
            assert(list.deep_view()[i as int] == x@);
            return true;
        }
        i += 1;
    }
    false
}

/// A copy of some strings.
pub fn copy_list(list: &Vec<String>) -> (r: Vec<String>)
    ensures
        r.deep_view() == list.deep_view(),
{
    let mut r: Vec<String> = Vec::new();
    let mut i: usize = 0;
    while i < list.len()
        invariant
            i <= list.len(),
            r.deep_view() == list.deep_view().take(i as int),
        decreases list.len() - i,
    {
        let ghost before = r.deep_view();
        r.push(list[i].clone());
        assert(r.deep_view() =~= before.push(list.deep_view()[i as int]));
        assert(r.deep_view() =~= list.deep_view().take(i + 1));
        i += 1;
    }
    assert(r.deep_view() =~= list.deep_view());
    r
}

/// The number that some decimal digits write.
pub open spec fn number_of(digits: Seq<char>) -> int
    decreases digits.len(),
{
    if digits.len() == 0 {
        0
    } else {
        10 * number_of(digits.drop_last()) + (digits.last() as int - 48)
    }
}

/// A number that is written in decimal is read back as that number; it is written with digits alone,
/// and without a leading zero.
pub proof fn law_decimal_reads_back(n: nat)
    ensures
        number_of(decimal_text(n)) == n,
        decimal_text(n).len() > 0,
        forall|k: int|
            0 <= k < decimal_text(n).len() ==> '0' <= #[trigger] decimal_text(n)[k] <= '9',
        n > 0 ==> decimal_text(n)[0] != '0',
    decreases n,
{
    let text = decimal_text(n);
    if n < 10 {
        assert(text.drop_last() =~= Seq::<char>::empty());
        assert(number_of(text.drop_last()) == 0);
    } else {
        law_decimal_reads_back(n / 10);
        assert(text.drop_last() =~= decimal_text(n / 10));
    }
}

/// The beginning of a string is a prefix of it, as long as was asked for or as long as it can be.
pub proof fn law_leading_is_a_prefix(s: Seq<char>, n: nat)
    ensures
        leading_text(s, n).is_prefix_of(s),
        leading_text(s, n).len() <= n,
        leading_text(s, n).len() == n || leading_text(s, n) == s,
{
}

/// What stands between a prefix and a suffix is exactly what makes up the string with them.
pub proof fn law_inner_stands_between(
    s: Seq<char>,
    prefix: Seq<char>,
    suffix: Seq<char>,
    middle: Seq<char>,
)
    ensures
        (inner_text(s, prefix, suffix) == Some(middle)) == (s == prefix + middle + suffix),
{
    let whole = prefix + middle + suffix;
    assert(whole.subrange(prefix.len() as int, whole.len() - suffix.len()) =~= middle);
    assert(whole.subrange(0, prefix.len() as int) =~= prefix);
    assert(whole.subrange(whole.len() - suffix.len(), whole.len() as int) =~= suffix);
    if inner_text(s, prefix, suffix) == Some(middle) {
        assert forall|k: int| 0 <= k < s.len() implies s[k] == whole[k] by {
            if k < prefix.len() {
                assert(s[k] == prefix[k]);
            } else if k < prefix.len() + middle.len() {
                assert(s[k] == middle[k - prefix.len()]);
            } else {
                let from = s.len() - suffix.len();
                assert(s.subrange(from, s.len() as int)[k - from] == suffix[k - from]);
            }
        }
        assert(s =~= whole);
    }
}

/// A string holds another exactly if it is made of something, the other, and something more.
pub proof fn law_holds_means_within(s: Seq<char>, part: Seq<char>)
    ensures
        holds_text(s, part) == exists|before: Seq<char>, after: Seq<char>|
            s == #[trigger] (before + part + after),
{
    if holds_text(s, part) {
        let at = choose|at: int| stands_at(s, part, at);
        let before = s.take(at);
        let after = s.skip(at + part.len());
        assert forall|k: int| 0 <= k < s.len() implies s[k] == (before + part + after)[k] by {
            if at <= k < at + part.len() {
                assert(s.subrange(at, at + part.len())[k - at] == part[k - at]);
            }
        }
        assert(s =~= before + part + after);
    }
    if exists|before: Seq<char>, after: Seq<char>| s == #[trigger] (before + part + after) {
        let (before, after) = choose|before: Seq<char>, after: Seq<char>|
            s == #[trigger] (before + part + after);
        assert(s.subrange(before.len() as int, (before.len() + part.len()) as int) =~= part);
        assert(stands_at(s, part, before.len() as int));
    }
}

/// The code points with Unicode's `White_Space` property, in full.
pub proof fn law_white_code_points(c: char)
    ensures
        is_white(c) == ({
            let n = c as int;
            ||| 0x9 <= n <= 0xd
            ||| 0x2000 <= n <= 0x200a
            ||| n == 0x20 || n == 0x85 || n == 0xa0 || n == 0x1680
            ||| n == 0x2028 || n == 0x2029 || n == 0x202f || n == 0x205f || n == 0x3000
        }),
{
}

/// Trimming takes off white space at both ends, all of it and nothing else.
pub proof fn law_trimming_takes_white_space_off(s: Seq<char>)
    ensures
        exists|before: Seq<char>, after: Seq<char>|
            s == #[trigger] (before + trimmed_text(s) + after) && (forall|k: int|
                0 <= k < before.len() ==> is_white(#[trigger] before[k])) && (forall|k: int|
                0 <= k < after.len() ==> is_white(#[trigger] after[k])),
        trimmed_text(s).len() > 0 ==> !is_white(trimmed_text(s)[0]) && !is_white(
            trimmed_text(s).last(),
        ),
{
    let before = lemma_leading_white(s);
    let rest = without_leading_white(s);
    let after = lemma_trailing_white(rest);
    assert(before + trimmed_text(s) + after =~= before + (trimmed_text(s) + after));
    assert(s == before + trimmed_text(s) + after);
    if trimmed_text(s).len() > 0 {
        assert(trimmed_text(s)[0] == rest[0]);
    }
}

proof fn lemma_leading_white(s: Seq<char>) -> (before: Seq<char>)
    ensures
        s == before + without_leading_white(s),
        forall|k: int| 0 <= k < before.len() ==> is_white(#[trigger] before[k]),
        without_leading_white(s).len() > 0 ==> !is_white(without_leading_white(s)[0]),
    decreases s.len(),
{
    if s.len() > 0 && is_white(s[0]) {
        let rest = lemma_leading_white(s.drop_first());
        let before = seq![s[0]] + rest;
        assert(s =~= seq![s[0]] + s.drop_first());
        assert(before + without_leading_white(s) =~= s);
        before
    } else {
        assert(Seq::<char>::empty() + s =~= s);
        Seq::empty()
    }
}

proof fn lemma_trailing_white(s: Seq<char>) -> (after: Seq<char>)
    ensures
        s == without_trailing_white(s) + after,
        forall|k: int| 0 <= k < after.len() ==> is_white(#[trigger] after[k]),
        without_trailing_white(s).len() > 0 ==> !is_white(without_trailing_white(s).last()),
    decreases s.len(),
{
    if s.len() > 0 && is_white(s.last()) {
        let rest = lemma_trailing_white(s.drop_last());
        let after = rest.push(s.last());
        assert(s =~= s.drop_last().push(s.last()));
        assert(without_trailing_white(s) + after =~= s);
        after
    } else {
        assert(s + Seq::<char>::empty() =~= s);
        Seq::empty()
    }
}

} // verus!
