//! Text primitives: comparing, trimming, splitting and joining strings, each stated over
//! the sequence of characters that a string holds.

use vstd::prelude::*;

verus! {

/// `String::push` appends one character at the end.
pub assume_specification[ String::push ](s: &mut String, c: char)
    ensures
        final(s)@ == old(s)@.push(c),
;

/// `String::push_str` appends the characters of another string at the end.
pub assume_specification[ String::push_str ](s: &mut String, other: &str)
    ensures
        final(s)@ == old(s)@ + other@,
;

/// `str::eq` compares two strings character by character.
pub assume_specification[ <str as PartialEq>::eq ](a: &str, b: &str) -> (r: bool)
    ensures
        r == (a@ == b@),
;

/// The characters with the Unicode `White_Space` property.
pub open spec fn is_white(c: char) -> bool {
    ||| '\u{9}' <= c <= '\u{d}'
    ||| c == '\u{20}'
    ||| c == '\u{85}'
    ||| c == '\u{a0}'
    ||| c == '\u{1680}'
    ||| '\u{2000}' <= c <= '\u{200a}'
    ||| c == '\u{2028}'
    ||| c == '\u{2029}'
    ||| c == '\u{202f}'
    ||| c == '\u{205f}'
    ||| c == '\u{3000}'
}

/// `char::is_whitespace` tells whether a character has the `White_Space` property.
pub assume_specification[ char::is_whitespace ](c: char) -> (r: bool)
    ensures
        r == is_white(c),
;

/// The texts that a list of strings holds.
pub open spec fn texts(v: Seq<String>) -> Seq<Seq<char>> {
    v.map_values(|s: String| s@)
}

/// The text of an optional string.
pub open spec fn opt_text(o: Option<String>) -> Option<Seq<char>> {
    match o {
        Some(s) => Some(s@),
        None => None,
    }
}

/// The texts of an optional list of strings.
pub open spec fn opt_texts(o: Option<Vec<String>>) -> Option<Seq<Seq<char>>> {
    match o {
        Some(v) => Some(texts(v@)),
        None => None,
    }
}

/// The place where a text first stands in a list: the length of the list where it does not.
pub open spec fn first_at(list: Seq<Seq<char>>, x: Seq<char>) -> int
    decreases list.len(),
{
    if list.len() == 0 || list[0] == x {
        0
    } else {
        1 + first_at(list.drop_first(), x)
    }
}

/// The first place of a text holds it, and no place before it does.
pub proof fn lemma_first_at(list: Seq<Seq<char>>, x: Seq<char>)
    ensures
        0 <= first_at(list, x) <= list.len(),
        first_at(list, x) < list.len() ==> list[first_at(list, x)] == x,
        forall|k: int| 0 <= k < first_at(list, x) ==> list[k] != x,
        first_at(list, x) < list.len() <==> list.contains(x),
    decreases list.len(),
{
    if list.len() > 0 && list[0] != x {
        let rest = list.drop_first();
        lemma_first_at(rest, x);
        assert forall|k: int| 0 <= k < first_at(list, x) implies list[k] != x by {
            if k > 0 {
                assert(rest[k - 1] == list[k]);
            }
        }
        if list.contains(x) {
            let k = choose|k: int| 0 <= k < list.len() && list[k] == x;
            assert(rest[k - 1] == x);
        }
    }
}

/// A place that holds a text, with no such place before it, is the first.
pub proof fn lemma_is_first_at(list: Seq<Seq<char>>, x: Seq<char>, i: int)
    requires
        0 <= i <= list.len(),
        i < list.len() ==> list[i] == x,
        forall|k: int| 0 <= k < i ==> list[k] != x,
    ensures
        first_at(list, x) == i,
{
    lemma_first_at(list, x);
}

/// The characters of a string, in order.
pub fn chars_of(s: &str) -> (r: Vec<char>)
    ensures
        r@ == s@,
{
    let mut out: Vec<char> = Vec::new();
    for c in it: s.chars()
        invariant
            out@ == it.seq().take(it.index() as int),
            it.seq() == s@,
    {
        out.push(c);
    }
    out
}

/// The string that holds the characters `from..to` of `cs`.
pub fn string_of(cs: &Vec<char>, from: usize, to: usize) -> (r: String)
    requires
        from <= to <= cs@.len(),
    ensures
        r@ == cs@.subrange(from as int, to as int),
{
    let mut out = String::new();
    let mut i: usize = from;
    while i < to
        invariant
            from <= i <= to <= cs@.len(),
            out@ == cs@.subrange(from as int, i as int),
        decreases to - i,
    {
        out.push(cs[i]);
        i += 1;
    }
    out
}

/// The concatenation of two strings.
pub fn concat(a: &str, b: &str) -> (r: String)
    ensures
        r@ == a@ + b@,
{
    let mut out = String::new();
    out.push_str(a);
    out.push_str(b);
    proof {
        assert(Seq::<char>::empty() + a@ =~= a@);
    }
    out
}

/// The concatenation of three strings.
pub fn concat3(a: &str, b: &str, c: &str) -> (r: String)
    ensures
        r@ == a@ + b@ + c@,
{
    let mut out = concat(a, b);
    out.push_str(c);
    out
}

/// Whether `list` holds a string with the text of `s`.
pub fn contains_text(list: &Vec<String>, s: &str) -> (r: bool)
    ensures
        r == texts(list@).contains(s@),
{
    let mut i: usize = 0;
    while i < list.len()
        invariant
            i <= list@.len(),
            forall|k: int| 0 <= k < i ==> texts(list@)[k] != s@,
        decreases list@.len() - i,
    {
        if *list[i].as_str() == *s {
            assert(texts(list@)[i as int] == s@);
            return true;
        }
        i += 1;
    }
    false
}

/// A copy of a list of strings.
pub fn clone_texts(list: &Vec<String>) -> (r: Vec<String>)
    ensures
        texts(r@) == texts(list@),
        r@ == list@,
{
    let r = list.clone();
    assert(r@ =~= list@);
    r
}

/// Appends to `to` the strings of `from`, in order.
pub fn append_texts(to: &mut Vec<String>, from: &Vec<String>)
    ensures
        texts(final(to)@) == texts(old(to)@) + texts(from@),
{
    let mut i: usize = 0;
    while i < from.len()
        invariant
            i <= from@.len(),
            texts(to@) == texts(old(to)@) + texts(from@).take(i as int),
        decreases from@.len() - i,
    {
        let ghost before = to@;
        to.push(from[i].clone());
        proof {
            assert(texts(to@) =~= texts(before).push(from@[i as int]@));
            assert(texts(from@).take(i + 1) =~= texts(from@).take(i as int).push(
                from@[i as int]@,
            ));
        }
        i += 1;
    }
    assert(texts(from@).take(i as int) =~= texts(from@));
}

/// Whether `s` begins with `prefix`.
pub open spec fn begins_with(s: Seq<char>, prefix: Seq<char>) -> bool {
    prefix.len() <= s.len() && s.take(prefix.len() as int) == prefix
}

/// Whether `s` begins with `prefix`.
pub fn starts_with(s: &str, prefix: &str) -> (r: bool)
    ensures
        r == begins_with(s@, prefix@),
{
    let a = chars_of(s);
    let b = chars_of(prefix);
    if b.len() > a.len() {
        return false;
    }
    let mut i: usize = 0;
    while i < b.len()
        invariant
            i <= b@.len() <= a@.len(),
            a@ == s@,
            b@ == prefix@,
            a@.take(i as int) == b@.take(i as int),
        decreases b@.len() - i,
    {
        if a[i] != b[i] {
            proof {
                assert(s@.take(prefix@.len() as int)[i as int] != prefix@[i as int]);
            }
            return false;
        }
        proof {
            assert(a@.take(i + 1) =~= a@.take(i as int).push(a@[i as int]));
            assert(b@.take(i + 1) =~= b@.take(i as int).push(b@[i as int]));
        }
        i += 1;
    }
    proof {
        assert(b@.take(i as int) =~= b@);
    }
    true
}

/// Whether `part` occurs in `s` at offset `at`.
pub open spec fn occurs_at(s: Seq<char>, part: Seq<char>, at: int) -> bool {
    0 <= at && at + part.len() <= s.len() && s.subrange(at, at + part.len()) == part
}

/// Whether `part` occurs somewhere in `s`.
pub open spec fn occurs_in(s: Seq<char>, part: Seq<char>) -> bool {
    exists|at: int| occurs_at(s, part, at)
}

fn matches_at(s: &Vec<char>, part: &Vec<char>, at: usize) -> (r: bool)
    requires
        at + part@.len() <= s@.len(),
    ensures
        r == occurs_at(s@, part@, at as int),
{
    let mut i: usize = 0;
    while i < part.len()
        invariant
            i <= part@.len(),
            at + part@.len() <= s.len(),
            forall|k: int| 0 <= k < i ==> s@[at + k] == part@[k],
        decreases part@.len() - i,
    {
        if s[at + i] != part[i] {
            assert(s@.subrange(at as int, at + part@.len())[i as int] != part@[i as int]);
            return false;
        }
        i += 1;
    }
    assert(s@.subrange(at as int, at + part@.len()) =~= part@);
    true
}

/// Whether `part` occurs somewhere in `s`.
pub fn contains(s: &str, part: &str) -> (r: bool)
    ensures
        r == occurs_in(s@, part@),
{
    let a = chars_of(s);
    let b = chars_of(part);
    if b.len() > a.len() {
        return false;
    }
    let last: usize = a.len() - b.len();
    let mut i: usize = 0;
    loop
        invariant
            a@ == s@,
            b@ == part@,
            last == a@.len() - b@.len(),
            i <= last,
            forall|k: int| 0 <= k < i ==> !occurs_at(a@, b@, k),
        decreases last - i,
    {
        if matches_at(&a, &b, i) {
            return true;
        }
        if i == last {
            return false;
        }
        i += 1;
    }
}

/// `s` without its leading white space.
pub open spec fn trim_start(s: Seq<char>) -> Seq<char>
    decreases s.len(),
{
    if s.len() > 0 && is_white(s[0]) {
        trim_start(s.drop_first())
    } else {
        s
    }
}

/// `s` without its trailing white space.
pub open spec fn trim_end(s: Seq<char>) -> Seq<char>
    decreases s.len(),
{
    if s.len() > 0 && is_white(s.last()) {
        trim_end(s.drop_last())
    } else {
        s
    }
}

/// `s` without its leading and trailing white space.
pub open spec fn trimmed(s: Seq<char>) -> Seq<char> {
    trim_end(trim_start(s))
}

/// `s` without its leading and trailing white space.
pub fn trim(s: &str) -> (r: String)
    ensures
        r@ == trimmed(s@),
{
    let cs = chars_of(s);
    let mut from: usize = 0;
    assert(cs@.subrange(0, cs@.len() as int) =~= cs@);
    while from < cs.len() && cs[from].is_whitespace()
        invariant
            from <= cs@.len(),
            trim_start(cs@) == trim_start(cs@.subrange(from as int, cs@.len() as int)),
        decreases cs@.len() - from,
    {
        proof {
            let rest = cs@.subrange(from as int, cs@.len() as int);
            assert(rest.drop_first() =~= cs@.subrange(from + 1, cs@.len() as int));
        }
        from += 1;
    }
    let mut to: usize = cs.len();
    while to > from && cs[to - 1].is_whitespace()
        invariant
            from <= to <= cs@.len(),
            trim_end(cs@.subrange(from as int, cs@.len() as int)) == trim_end(
                cs@.subrange(from as int, to as int),
            ),
        decreases to - from,
    {
        proof {
            let rest = cs@.subrange(from as int, to as int);
            assert(rest.last() == cs@[to - 1]);
            assert(rest.drop_last() =~= cs@.subrange(from as int, to - 1));
        }
        to -= 1;
    }
    proof {
        let mid = cs@.subrange(from as int, to as int);
        if mid.len() > 0 {
            assert(mid.last() == cs@[to - 1]);
        }
    }
    string_of(&cs, from, to)
}

/// Trimming removes nothing but white space: what is left is empty or both begins and ends
/// with a character that is not white space.
pub proof fn lemma_trimmed_ends(s: Seq<char>)
    ensures
        trimmed(s).len() > 0 ==> !is_white(trimmed(s)[0]) && !is_white(trimmed(s).last()),
    decreases s.len(),
{
    lemma_trim_start_head(s);
    lemma_trim_end_ends(trim_start(s));
}

proof fn lemma_trim_start_head(s: Seq<char>)
    ensures
        trim_start(s).len() > 0 ==> !is_white(trim_start(s)[0]),
    decreases s.len(),
{
    if s.len() > 0 && is_white(s[0]) {
        lemma_trim_start_head(s.drop_first());
    }
}

proof fn lemma_trim_end_ends(s: Seq<char>)
    ensures
        trim_end(s).len() > 0 ==> !is_white(trim_end(s).last()) && trim_end(s)[0] == s[0],
    decreases s.len(),
{
    if s.len() > 0 && is_white(s.last()) {
        lemma_trim_end_ends(s.drop_last());
    }
}

/// `s` without the characters `c` at its end.
pub open spec fn strip_end(s: Seq<char>, c: char) -> Seq<char>
    decreases s.len(),
{
    if s.len() > 0 && s.last() == c {
        strip_end(s.drop_last(), c)
    } else {
        s
    }
}

/// `s` without the characters `c` at its beginning.
pub open spec fn strip_start(s: Seq<char>, c: char) -> Seq<char>
    decreases s.len(),
{
    if s.len() > 0 && s[0] == c {
        strip_start(s.drop_first(), c)
    } else {
        s
    }
}

/// `s` without the characters `c` at its end.
pub fn trim_end_matches(s: &str, c: char) -> (r: String)
    ensures
        r@ == strip_end(s@, c),
{
    let cs = chars_of(s);
    let mut to: usize = cs.len();
    assert(cs@.take(to as int) =~= cs@);
    while to > 0 && cs[to - 1] == c
        invariant
            to <= cs@.len(),
            strip_end(cs@, c) == strip_end(cs@.take(to as int), c),
        decreases to,
    {
        proof {
            assert(cs@.take(to as int).last() == c);
            assert(cs@.take(to as int).drop_last() =~= cs@.take(to - 1));
        }
        to -= 1;
    }
    proof {
        if to > 0 {
            assert(cs@.take(to as int).last() == cs@[to - 1]);
        }
        assert(cs@.take(to as int) =~= cs@.subrange(0, to as int));
    }
    string_of(&cs, 0, to)
}

/// `s` without the characters `c` at its beginning and at its end.
pub fn trim_matches(s: &str, c: char) -> (r: String)
    ensures
        r@ == strip_end(strip_start(s@, c), c),
{
    let cs = chars_of(s);
    let mut from: usize = 0;
    assert(cs@.subrange(0, cs@.len() as int) =~= cs@);
    while from < cs.len() && cs[from] == c
        invariant
            from <= cs@.len(),
            strip_start(cs@, c) == strip_start(cs@.subrange(from as int, cs@.len() as int), c),
        decreases cs@.len() - from,
    {
        proof {
            let rest = cs@.subrange(from as int, cs@.len() as int);
            assert(rest.drop_first() =~= cs@.subrange(from + 1, cs@.len() as int));
        }
        from += 1;
    }
    let rest = string_of(&cs, from, cs.len());
    trim_end_matches(rest.as_str(), c)
}

/// How many characters at the beginning of `s` are not white space.
pub open spec fn word_len(s: Seq<char>) -> nat
    decreases s.len(),
{
    if s.len() > 0 && !is_white(s[0]) {
        1 + word_len(s.drop_first())
    } else {
        0
    }
}

proof fn lemma_trim_start_len(s: Seq<char>)
    ensures
        trim_start(s).len() <= s.len(),
    decreases s.len(),
{
    if s.len() > 0 && is_white(s[0]) {
        lemma_trim_start_len(s.drop_first());
    }
}

proof fn lemma_word_len(s: Seq<char>)
    ensures
        word_len(s) <= s.len(),
    decreases s.len(),
{
    if s.len() > 0 && !is_white(s[0]) {
        lemma_word_len(s.drop_first());
    }
}

/// The maximal runs of characters of `s` that are not white space, in order.
pub open spec fn words(s: Seq<char>) -> Seq<Seq<char>>
    decreases s.len(),
    via words_decreases
{
    let t = trim_start(s);
    if t.len() == 0 {
        Seq::empty()
    } else {
        seq![t.take(word_len(t) as int)] + words(t.skip(word_len(t) as int))
    }
}

#[via_fn]
proof fn words_decreases(s: Seq<char>) {
    lemma_trim_start_len(s);
    let t = trim_start(s);
    lemma_word_len(t);
    lemma_trim_start_head(s);
    if t.len() > 0 {
        assert(word_len(t) >= 1);
    }
}

/// The maximal runs of characters of `s` that are not white space, in order.
pub fn split_whitespace(s: &str) -> (r: Vec<String>)
    ensures
        texts(r@) == words(s@),
{
    let cs = chars_of(s);
    let mut out: Vec<String> = Vec::new();
    let mut i: usize = 0;
    proof {
        assert(cs@.skip(0) =~= cs@);
        assert(texts(out@) =~= Seq::<Seq<char>>::empty());
        assert(Seq::<Seq<char>>::empty() + words(cs@) =~= words(cs@));
    }
    while i < cs.len()
        invariant
            i <= cs@.len(),
            texts(out@) + words(cs@.skip(i as int)) == words(cs@),
        decreases cs@.len() - i,
    {
        if cs[i].is_whitespace() {
            proof {
                assert(cs@.skip(i as int).drop_first() =~= cs@.skip(i + 1));
                assert(trim_start(cs@.skip(i as int)) == trim_start(cs@.skip(i + 1)));
                assert(words(cs@.skip(i as int)) == words(cs@.skip(i + 1)));
            }
            i += 1;
        } else {
            let start: usize = i;
            while i < cs.len() && !cs[i].is_whitespace()
                invariant
                    start <= i <= cs@.len(),
                    word_len(cs@.skip(start as int)) == (i - start) + word_len(cs@.skip(i as int)),
                    i == start ==> !is_white(cs@[i as int]) && i < cs@.len(),
                decreases cs@.len() - i,
            {
                proof {
                    assert(cs@.skip(i as int).drop_first() =~= cs@.skip(i + 1));
                }
                i += 1;
            }
            out.push(string_of(&cs, start, i));
            proof {
                let t = cs@.skip(start as int);
                let n = (i - start) as int;
                if i < cs@.len() {
                    assert(cs@.skip(i as int)[0] == cs@[i as int]);
                }
                assert(word_len(cs@.skip(i as int)) == 0);
                assert(t[0] == cs@[start as int]);
                assert(trim_start(t) == t);
                assert(t.take(n) =~= cs@.subrange(start as int, i as int));
                assert(t.skip(n) =~= cs@.skip(i as int));
                let before = texts(out@.drop_last());
                assert(texts(out@) =~= before.push(t.take(n)));
                assert(before + (seq![t.take(n)] + words(t.skip(n))) =~= before.push(t.take(n))
                    + words(t.skip(n)));
                assert(out@.drop_last() =~= out@.take(out@.len() - 1));
            }
        }
    }
    proof {
        assert(cs@.skip(i as int).len() == 0);
        assert(words(cs@.skip(i as int)) =~= Seq::<Seq<char>>::empty());
        assert(texts(out@) + Seq::<Seq<char>>::empty() =~= texts(out@));
    }
    out
}

/// How many characters stand before the first line feed of `s`: all of them where it has
/// none.
pub open spec fn line_len(s: Seq<char>) -> nat
    decreases s.len(),
{
    if s.len() > 0 && s[0] != '\n' {
        1 + line_len(s.drop_first())
    } else {
        0
    }
}

proof fn lemma_line_len(s: Seq<char>)
    ensures
        line_len(s) <= s.len(),
    decreases s.len(),
{
    if s.len() > 0 && s[0] != '\n' {
        lemma_line_len(s.drop_first());
    }
}

/// `s` without one carriage return at its end.
pub open spec fn without_cr(s: Seq<char>) -> Seq<char> {
    if s.len() > 0 && s.last() == '\r' {
        s.drop_last()
    } else {
        s
    }
}

/// The lines of `s`. A line ends with a line feed, which may have one carriage return
/// before it and which the last line may lack; neither belongs to the line.
pub open spec fn line_list(s: Seq<char>) -> Seq<Seq<char>>
    decreases s.len(),
    via line_list_decreases
{
    if s.len() == 0 {
        Seq::empty()
    } else if line_len(s) == s.len() {
        seq![s]
    } else {
        seq![without_cr(s.take(line_len(s) as int))] + line_list(s.skip(line_len(s) as int + 1))
    }
}

#[via_fn]
proof fn line_list_decreases(s: Seq<char>) {
    lemma_line_len(s);
}

/// The lines of `s`.
pub fn lines(s: &str) -> (r: Vec<String>)
    ensures
        texts(r@) == line_list(s@),
{
    let cs = chars_of(s);
    let mut out: Vec<String> = Vec::new();
    let mut i: usize = 0;
    proof {
        assert(cs@.skip(0) =~= cs@);
        assert(texts(out@) =~= Seq::<Seq<char>>::empty());
        assert(Seq::<Seq<char>>::empty() + line_list(cs@) =~= line_list(cs@));
    }
    while i < cs.len()
        invariant
            i <= cs@.len(),
            texts(out@) + line_list(cs@.skip(i as int)) == line_list(cs@),
        decreases cs@.len() - i,
    {
        let start: usize = i;
        let mut j: usize = i;
        while j < cs.len() && cs[j] != '\n'
            invariant
                start <= j <= cs@.len(),
                line_len(cs@.skip(start as int)) == (j - start) + line_len(cs@.skip(j as int)),
            decreases cs@.len() - j,
        {
            proof {
                assert(cs@.skip(j as int).drop_first() =~= cs@.skip(j + 1));
            }
            j += 1;
        }
        let ghost rest = cs@.skip(start as int);
        let ghost before = texts(out@);
        proof {
            if j < cs@.len() {
                assert(cs@.skip(j as int)[0] == '\n');
            }
            assert(line_len(cs@.skip(j as int)) == 0);
            assert(rest.take(j - start) =~= cs@.subrange(start as int, j as int));
        }
        if j == cs.len() {
            out.push(string_of(&cs, start, j));
            proof {
                assert(rest.take(j - start) =~= rest);
                assert(texts(out@) =~= before + seq![rest]);
                assert(line_list(cs@.skip(j as int)) =~= Seq::<Seq<char>>::empty());
                assert(texts(out@) + Seq::<Seq<char>>::empty() =~= texts(out@));
            }
            i = j;
        } else {
            let end: usize = if j > start && cs[j - 1] == '\r' {
                j - 1
            } else {
                j
            };
            out.push(string_of(&cs, start, end));
            proof {
                let line = rest.take(j - start);
                if j > start {
                    assert(line.last() == cs@[j - 1]);
                }
                assert(without_cr(line) =~= cs@.subrange(start as int, end as int));
                assert(rest.skip(j - start + 1) =~= cs@.skip(j + 1));
                assert(texts(out@) =~= before.push(without_cr(line)));
                assert(before + (seq![without_cr(line)] + line_list(cs@.skip(j + 1)))
                    =~= before.push(without_cr(line)) + line_list(cs@.skip(j + 1)));
            }
            i = j + 1;
        }
    }
    proof {
        assert(line_list(cs@.skip(i as int)) =~= Seq::<Seq<char>>::empty());
        assert(texts(out@) + Seq::<Seq<char>>::empty() =~= texts(out@));
    }
    out
}

/// Whether a character is a letter of ASCII, which can name a drive.
pub open spec fn is_letter(c: char) -> bool {
    'a' <= c <= 'z' || 'A' <= c <= 'Z'
}

/// `s` with every character `from` replaced by `to`.
pub open spec fn with_char(s: Seq<char>, from: char, to: char) -> Seq<char> {
    s.map_values(
        |c: char|
            if c == from {
                to
            } else {
                c
            },
    )
}

/// `s` with every character `from` replaced by `to`.
pub fn replace_char(s: &str, from: char, to: char) -> (r: String)
    ensures
        r@ == with_char(s@, from, to),
{
    let cs = chars_of(s);
    let mut out = String::new();
    let mut i: usize = 0;
    while i < cs.len()
        invariant
            cs@ == s@,
            i <= cs@.len(),
            out@ == with_char(s@, from, to).take(i as int),
        decreases cs@.len() - i,
    {
        if cs[i] == from {
            out.push(to);
        } else {
            out.push(cs[i]);
        }
        assert(out@ =~= with_char(s@, from, to).take(i + 1));
        i += 1;
    }
    assert(with_char(s@, from, to).take(i as int) =~= with_char(s@, from, to));
    out
}

/// The text of `n` copies of a space.
pub open spec fn spaces(n: nat) -> Seq<char> {
    Seq::new(n, |i: int| ' ')
}

/// `s` followed by as many spaces as bring it to `width` characters.
pub open spec fn padded(s: Seq<char>, width: nat) -> Seq<char> {
    if s.len() < width {
        s + spaces((width - s.len()) as nat)
    } else {
        s
    }
}

/// `s` followed by as many spaces as bring it to `width` characters.
pub fn pad_right(s: &str, width: usize) -> (r: String)
    ensures
        r@ == padded(s@, width as nat),
{
    let cs = chars_of(s);
    let mut n: usize = cs.len();
    let mut out = string_of(&cs, 0, n);
    assert(out@ =~= s@);
    while n < width
        invariant
            cs@ == s@,
            cs@.len() <= n,
            n <= width || n == cs@.len(),
            out@ == s@ + spaces((n - s@.len()) as nat),
        decreases width - n,
    {
        out.push(' ');
        n += 1;
        assert(out@ =~= s@ + spaces((n - s@.len()) as nat));
    }
    assert(spaces(0) =~= Seq::<char>::empty());
    assert(out@ =~= padded(s@, width as nat));
    out
}

/// The decimal digit `d`.
pub open spec fn digit(d: nat) -> char {
    (48 + d) as char
}

/// The decimal digits of `n`, without leading zeros.
pub open spec fn decimal(n: nat) -> Seq<char>
    decreases n,
{
    if n < 10 {
        seq![digit(n)]
    } else {
        decimal(n / 10).push(digit(n % 10))
    }
}

/// The decimal digits of `i`, after a minus sign where it is negative.
pub open spec fn signed_decimal(i: int) -> Seq<char> {
    if i < 0 {
        seq!['-'] + decimal((-i) as nat)
    } else {
        decimal(i as nat)
    }
}

/// The decimal digits of `n`.
pub fn decimal_text(n: u64) -> (r: String)
    ensures
        r@ == decimal(n as nat),
    decreases n,
{
    let d: u8 = 48u8 + (n % 10) as u8;
    let c: char = d as char;
    if n < 10 {
        let mut out = String::new();
        out.push(c);
        assert(out@ =~= decimal(n as nat));
        out
    } else {
        let mut out = decimal_text(n / 10);
        out.push(c);
        out
    }
}

/// The decimal digits of `i`, after a minus sign where it is negative.
pub fn signed_text(i: i64) -> (r: String)
    ensures
        r@ == signed_decimal(i as int),
{
    if i >= 0 {
        decimal_text(i as u64)
    } else {
        let n: u64 = (-(i as i128)) as u64;
        let mut out = String::new();
        out.push('-');
        let digits = decimal_text(n);
        out.push_str(digits.as_str());
        assert(out@ =~= seq!['-'] + digits@);
        out
    }
}

/// Whether `a` comes before `b` in the dictionary order by code points.
pub open spec fn text_lt(a: Seq<char>, b: Seq<char>) -> bool
    decreases a.len(),
{
    if b.len() == 0 {
        false
    } else if a.len() == 0 {
        true
    } else if a[0] != b[0] {
        a[0] < b[0]
    } else {
        text_lt(a.drop_first(), b.drop_first())
    }
}

/// Whether `a` comes before `b` in the dictionary order by code points.
pub fn text_before(a: &str, b: &str) -> (r: bool)
    ensures
        r == text_lt(a@, b@),
{
    let x = chars_of(a);
    let y = chars_of(b);
    let mut i: usize = 0;
    proof {
        assert(x@.skip(0) =~= x@);
        assert(y@.skip(0) =~= y@);
    }
    while i < x.len() && i < y.len() && x[i] == y[i]
        invariant
            x@ == a@,
            y@ == b@,
            i <= x@.len(),
            i <= y@.len(),
            text_lt(a@, b@) == text_lt(x@.skip(i as int), y@.skip(i as int)),
        decreases x@.len() - i,
    {
        proof {
            assert(x@.skip(i as int).drop_first() =~= x@.skip(i + 1));
            assert(y@.skip(i as int).drop_first() =~= y@.skip(i + 1));
        }
        i += 1;
    }
    if i == y.len() {
        false
    } else if i == x.len() {
        true
    } else {
        proof {
            assert(x@.skip(i as int)[0] == x@[i as int]);
            assert(y@.skip(i as int)[0] == y@[i as int]);
        }
        x[i] < y[i]
    }
}

/// The dictionary order is a strict total order: of two texts exactly one comes before the
/// other, or they are the same.
pub proof fn lemma_text_lt_total(a: Seq<char>, b: Seq<char>)
    ensures
        text_lt(a, b) ==> !text_lt(b, a) && a != b,
        a == b || text_lt(a, b) || text_lt(b, a),
    decreases a.len(),
{
    if a.len() > 0 && b.len() > 0 && a[0] == b[0] {
        lemma_text_lt_total(a.drop_first(), b.drop_first());
        assert(a =~= seq![a[0]] + a.drop_first());
        assert(b =~= seq![b[0]] + b.drop_first());
    } else if a.len() == 0 && b.len() == 0 {
        assert(a =~= b);
    }
}

/// The dictionary order is transitive.
pub proof fn lemma_text_lt_trans(a: Seq<char>, b: Seq<char>, c: Seq<char>)
    requires
        text_lt(a, b),
        text_lt(b, c),
    ensures
        text_lt(a, c),
    decreases a.len(),
{
    if a.len() > 0 && b.len() > 0 && c.len() > 0 && a[0] == b[0] && b[0] == c[0] {
        lemma_text_lt_trans(a.drop_first(), b.drop_first(), c.drop_first());
    }
}

} // verus!
