//! What the operations on texts do, told by how a text is put together.

use vstd::prelude::*;

use crate::text;

verus! {

/// Whether a text is nothing but white space.
pub open spec fn is_blank(s: Seq<char>) -> bool {
    forall|i: int| 0 <= i < s.len() ==> text::is_white(#[trigger] s[i])
}

/// Whether a text has no white space.
pub open spec fn is_solid(s: Seq<char>) -> bool {
    forall|i: int| 0 <= i < s.len() ==> !text::is_white(#[trigger] s[i])
}

/// Whether a text neither begins nor ends with white space.
pub open spec fn is_bare(s: Seq<char>) -> bool {
    s.len() == 0 || (!text::is_white(s[0]) && !text::is_white(s[s.len() - 1]))
}

proof fn lemma_trim_start_of(before: Seq<char>, s: Seq<char>)
    requires
        is_blank(before),
        s.len() > 0 ==> !text::is_white(s[0]),
    ensures
        text::trim_start(before + s) == s,
    decreases before.len(),
{
    if before.len() == 0 {
        assert(before + s =~= s);
    } else {
        let all = before + s;
        assert(all[0] == before[0]);
        assert(all.drop_first() =~= before.drop_first() + s);
        assert forall|i: int| 0 <= i < before.drop_first().len() implies text::is_white(
            #[trigger] before.drop_first()[i],
        ) by {
            assert(before.drop_first()[i] == before[i + 1]);
        }
        lemma_trim_start_of(before.drop_first(), s);
    }
}

/// White space at the beginning goes, and nothing else.
pub proof fn lemma_trim_start(before: Seq<char>, s: Seq<char>)
    requires
        is_blank(before),
        s.len() > 0 ==> !text::is_white(s[0]),
    ensures
        text::trim_start(before + s) == s,
{
    lemma_trim_start_of(before, s);
}

proof fn lemma_trim_end_of(s: Seq<char>, after: Seq<char>)
    requires
        is_blank(after),
        s.len() > 0 ==> !text::is_white(s[s.len() - 1]),
    ensures
        text::trim_end(s + after) == s,
    decreases after.len(),
{
    if after.len() == 0 {
        assert(s + after =~= s);
    } else {
        let all = s + after;
        assert(all.last() == after[after.len() - 1]);
        assert(all.drop_last() =~= s + after.drop_last());
        assert forall|i: int| 0 <= i < after.drop_last().len() implies text::is_white(
            #[trigger] after.drop_last()[i],
        ) by {
            assert(after.drop_last()[i] == after[i]);
        }
        lemma_trim_end_of(s, after.drop_last());
    }
}

/// Trimming gives back what stands between white space, whatever that is.
pub proof fn lemma_trimmed(before: Seq<char>, s: Seq<char>, after: Seq<char>)
    requires
        is_blank(before),
        is_bare(s),
        is_blank(after),
    ensures
        text::trimmed(before + s + after) == s,
{
    if s.len() == 0 {
        let all = before + s + after;
        assert forall|i: int| 0 <= i < all.len() implies text::is_white(#[trigger] all[i]) by {
            if i < before.len() {
                assert(all[i] == before[i]);
            } else {
                assert(all[i] == after[i - before.len()]);
            }
        }
        assert(all + Seq::<char>::empty() =~= all);
        lemma_trim_start_of(all, Seq::empty());
        assert(s =~= Seq::<char>::empty());
        assert(text::trim_end(Seq::<char>::empty()) == Seq::<char>::empty());
    } else {
        assert(before + s + after =~= before + (s + after));
        assert((s + after)[0] == s[0]);
        lemma_trim_start_of(before, s + after);
        lemma_trim_end_of(s, after);
    }
}

/// A text is blank exactly where nothing is left of it after trimming.
pub proof fn lemma_blank(s: Seq<char>)
    ensures
        text::trimmed(s).len() == 0 <==> is_blank(s),
{
    if is_blank(s) {
        lemma_trimmed(s, Seq::empty(), Seq::empty());
        assert(s + Seq::<char>::empty() + Seq::<char>::empty() =~= s);
    } else {
        let i = choose|i: int| 0 <= i < s.len() && !text::is_white(#[trigger] s[i]);
        lemma_trim_start_keeps(s, i);
        let t = text::trim_start(s);
        let j = choose|j: int| 0 <= j < t.len() && t[j] == s[i];
        lemma_trim_end_keeps(t, j);
    }
}

proof fn lemma_trim_start_keeps(s: Seq<char>, i: int)
    requires
        0 <= i < s.len(),
        !text::is_white(s[i]),
    ensures
        exists|j: int| 0 <= j < text::trim_start(s).len() && text::trim_start(s)[j] == s[i],
    decreases s.len(),
{
    if text::is_white(s[0]) {
        let rest = s.drop_first();
        assert(rest[i - 1] == s[i]);
        lemma_trim_start_keeps(rest, i - 1);
        let j = choose|j: int|
            0 <= j < text::trim_start(rest).len() && text::trim_start(rest)[j] == rest[i - 1];
        assert(text::trim_start(s)[j] == s[i]);
    } else {
        assert(text::trim_start(s)[i] == s[i]);
    }
}

proof fn lemma_trim_end_keeps(s: Seq<char>, i: int)
    requires
        0 <= i < s.len(),
        !text::is_white(s[i]),
    ensures
        text::trim_end(s).len() > i,
    decreases s.len(),
{
    if text::is_white(s.last()) {
        assert(s.drop_last()[i] == s[i]);
        lemma_trim_end_keeps(s.drop_last(), i);
    }
}

proof fn lemma_word_len_of(w: Seq<char>, rest: Seq<char>)
    requires
        is_solid(w),
        rest.len() > 0 ==> text::is_white(rest[0]),
    ensures
        text::word_len(w + rest) == w.len(),
    decreases w.len(),
{
    let all = w + rest;
    if w.len() == 0 {
        assert(all =~= rest);
    } else {
        assert(all[0] == w[0]);
        assert(all.drop_first() =~= w.drop_first() + rest);
        assert forall|i: int| 0 <= i < w.drop_first().len() implies !text::is_white(
            #[trigger] w.drop_first()[i],
        ) by {
            assert(w.drop_first()[i] == w[i + 1]);
        }
        lemma_word_len_of(w.drop_first(), rest);
    }
}

/// The words of a text are what white space parts, however much of it there is, in their order.
pub proof fn lemma_words(before: Seq<char>, word: Seq<char>, rest: Seq<char>)
    requires
        is_blank(before),
        word.len() > 0,
        is_solid(word),
        rest.len() > 0 ==> text::is_white(rest[0]),
    ensures
        text::words(before + word + rest) == seq![word] + text::words(rest),
        text::words(before).len() == 0,
{
    let t = word + rest;
    assert(before + word + rest =~= before + t);
    assert(t[0] == word[0]);
    lemma_trim_start_of(before, t);
    lemma_word_len_of(word, rest);
    assert(t.take(word.len() as int) =~= word);
    assert(t.skip(word.len() as int) =~= rest);
    lemma_trim_start_of(before, Seq::empty());
    assert(before + Seq::<char>::empty() =~= before);
}

proof fn lemma_line_len_of(line: Seq<char>, rest: Seq<char>)
    requires
        !line.contains('\n'),
        rest.len() > 0 ==> rest[0] == '\n',
    ensures
        text::line_len(line + rest) == line.len(),
    decreases line.len(),
{
    let all = line + rest;
    if line.len() == 0 {
        assert(all =~= rest);
    } else {
        assert(all[0] == line[0]);
        assert(line.contains(line[0]));
        assert(all.drop_first() =~= line.drop_first() + rest);
        if line.drop_first().contains('\n') {
            let i = choose|i: int|
                0 <= i < line.drop_first().len() && line.drop_first()[i] == '\n';
            assert(line[i + 1] == '\n');
        }
        lemma_line_len_of(line.drop_first(), rest);
    }
}

/// A line feed ends a line, together with a carriage return right before it. What follows the
/// last one is a line too, where there is anything.
pub proof fn lemma_lines(line: Seq<char>, rest: Seq<char>)
    requires
        !line.contains('\n'),
    ensures
        line.len() > 0 && line[line.len() - 1] == '\r' ==> text::line_list(line + seq!['\n'] + rest)
            == seq![line.take(line.len() - 1)] + text::line_list(rest),
        line.len() == 0 || line[line.len() - 1] != '\r' ==> text::line_list(
            line + seq!['\n'] + rest,
        ) == seq![line] + text::line_list(rest),
        line.len() > 0 ==> text::line_list(line) == seq![line],
        line.len() == 0 ==> text::line_list(line).len() == 0,
{
    let tail = seq!['\n'] + rest;
    let all = line + seq!['\n'] + rest;
    assert(all =~= line + tail);
    lemma_line_len_of(line, tail);
    assert(all.take(line.len() as int) =~= line);
    assert(all.skip(line.len() as int + 1) =~= rest);
    if line.len() > 0 {
        assert(line.drop_last() =~= line.take(line.len() - 1));
    }
    assert(line + Seq::<char>::empty() =~= line);
    lemma_line_len_of(line, Seq::empty());
}

/// Stripping takes every copy of a character from an end and nothing else.
pub proof fn lemma_strip(s: Seq<char>, c: char, n: nat)
    ensures
        s.len() == 0 || s[s.len() - 1] != c ==> text::strip_end(s + Seq::new(n, |i: int| c), c)
            == s,
        s.len() == 0 || s[0] != c ==> text::strip_start(Seq::new(n, |i: int| c) + s, c) == s,
    decreases n,
{
    let copies = Seq::new(n, |i: int| c);
    if n == 0 {
        assert(s + copies =~= s);
        assert(copies + s =~= s);
    } else {
        let fewer = Seq::new((n - 1) as nat, |i: int| c);
        lemma_strip(s, c, (n - 1) as nat);
        assert((s + copies).last() == c);
        assert((s + copies).drop_last() =~= s + fewer);
        assert((copies + s)[0] == c);
        assert((copies + s).drop_first() =~= fewer + s);
    }
}

/// Replacing a character changes that character alone, wherever it stands.
pub proof fn lemma_with_char(s: Seq<char>, from: char, to: char, i: int)
    requires
        0 <= i < s.len(),
    ensures
        text::with_char(s, from, to).len() == s.len(),
        s[i] == from ==> text::with_char(s, from, to)[i] == to,
        s[i] != from ==> text::with_char(s, from, to)[i] == s[i],
{
}

/// Padding adds spaces at the end, as many as are missing.
pub proof fn lemma_padded(s: Seq<char>, width: nat)
    ensures
        text::padded(s, width).len() == (if s.len() < width {
            width
        } else {
            s.len()
        }),
        forall|i: int| 0 <= i < s.len() ==> #[trigger] text::padded(s, width)[i] == s[i],
        forall|i: int|
            s.len() <= i < text::padded(s, width).len() ==> #[trigger] text::padded(s, width)[i]
                == ' ',
{
}

/// The number that decimal digits stand for.
pub open spec fn number(digits: Seq<char>) -> int
    decreases digits.len(),
{
    if digits.len() == 0 {
        0
    } else {
        10 * number(digits.drop_last()) + (digits.last() as int - '0' as int)
    }
}

/// The decimal form of a number stands for that number, is made of digits and has no zero in
/// front, unless it is nothing else.
pub proof fn lemma_decimal(n: nat)
    ensures
        number(text::decimal(n)) == n,
        text::decimal(n).len() > 0,
        forall|i: int|
            0 <= i < text::decimal(n).len() ==> '0' <= #[trigger] text::decimal(n)[i] <= '9',
        text::decimal(n).len() > 1 ==> text::decimal(n)[0] != '0',
    decreases n,
{
    let d = text::decimal(n);
    if n < 10 {
        assert(d.drop_last() =~= Seq::<char>::empty());
        assert(number(d.drop_last()) == 0);
    } else {
        lemma_decimal(n / 10);
        let less = text::decimal(n / 10);
        assert(d.drop_last() =~= less);
        assert(d[0] == less[0]);
        assert forall|i: int| 0 <= i < d.len() implies '0' <= #[trigger] d[i] <= '9' by {
            if i < less.len() {
                assert(d[i] == less[i]);
            }
        }
        if less.len() == 1 && less[0] == '0' {
            assert(less.drop_last() =~= Seq::<char>::empty());
            assert(number(less.drop_last()) == 0);
            assert(number(less) == 0);
        }
    }
}

/// A negative number is shown as the number that it is the opposite of, behind a minus sign.
pub proof fn lemma_signed_decimal(i: int)
    ensures
        i >= 0 ==> text::signed_decimal(i) == text::decimal(i as nat),
        i < 0 ==> text::signed_decimal(i)[0] == '-' && text::signed_decimal(i).skip(1)
            == text::decimal((-i) as nat),
{
    if i < 0 {
        assert(text::signed_decimal(i).skip(1) =~= text::decimal((-i) as nat));
    }
}

/// Of two texts the one comes first that has the lower character where they first differ, or
/// that ends there.
pub proof fn lemma_text_lt(common: Seq<char>, a: Seq<char>, b: Seq<char>)
    requires
        a.len() > 0 && b.len() > 0 ==> a[0] != b[0],
    ensures
        text::text_lt(common + a, common + b) <==> b.len() > 0 && (a.len() == 0 || a[0] < b[0]),
    decreases common.len(),
{
    if common.len() == 0 {
        assert(common + a =~= a);
        assert(common + b =~= b);
    } else {
        assert((common + a)[0] == common[0]);
        assert((common + b)[0] == common[0]);
        assert((common + a).drop_first() =~= common.drop_first() + a);
        assert((common + b).drop_first() =~= common.drop_first() + b);
        lemma_text_lt(common.drop_first(), a, b);
    }
}

/// A text begins with another exactly where it is that one followed by something.
pub proof fn lemma_begins_with(s: Seq<char>, prefix: Seq<char>)
    ensures
        text::begins_with(s, prefix) <==> exists|rest: Seq<char>| #[trigger] (prefix + rest) == s,
{
    if text::begins_with(s, prefix) {
        assert(prefix + s.skip(prefix.len() as int) =~= s);
    }
    if exists|rest: Seq<char>| #[trigger] (prefix + rest) == s {
        let rest = choose|rest: Seq<char>| #[trigger] (prefix + rest) == s;
        assert(s.take(prefix.len() as int) =~= prefix);
    }
}

/// A text occurs in another exactly where that one is something, the text and something.
pub proof fn lemma_occurs_in(s: Seq<char>, part: Seq<char>)
    ensures
        text::occurs_in(s, part) <==> exists|before: Seq<char>, after: Seq<char>| #[trigger]
            (before + part + after) == s,
{
    if text::occurs_in(s, part) {
        let at = choose|at: int| text::occurs_at(s, part, at);
        assert(s.take(at) + part + s.skip(at + part.len()) =~= s);
    }
    if exists|before: Seq<char>, after: Seq<char>| #[trigger] (before + part + after) == s {
        let (before, after) = choose|before: Seq<char>, after: Seq<char>| #[trigger]
            (before + part + after) == s;
        let at = before.len() as int;
        assert(s.subrange(at, at + part.len()) =~= part);
        assert(text::occurs_at(s, part, at));
    }
}

} // verus!
