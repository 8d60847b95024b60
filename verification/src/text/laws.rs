//! What trimming, splitting and reading text give.

use vstd::prelude::*;

use crate::text::{lemma_decimal, lemma_position_found, Text};

verus! {

/// Is the text nothing but white space?
pub open spec fn is_blank(s: Seq<char>) -> bool {
    forall|i: int| 0 <= i < s.len() ==> Text::is_space(#[trigger] s[i])
}

/// White space is blank, tab, the characters that end a line or a page, and those beyond ASCII
/// that Unicode counts to it.
pub proof fn law_white_space(c: char)
    ensures
        c as u32 <= 0x7f ==> Text::is_space(c) == (c == ' ' || c == '\t' || c == '\n' || c == '\r'
            || c == '\u{b}' || c == '\u{c}'),
        c as u32 > 0x7f ==> Text::is_space(c) == (c as u32 == 0x85 || c as u32 == 0xa0 || c as u32
            == 0x1680 || 0x2000 <= c as u32 <= 0x200a || c as u32 == 0x2028 || c as u32 == 0x2029
            || c as u32 == 0x202f || c as u32 == 0x205f || c as u32 == 0x3000),
{
}

/// White space before a text does not matter to what is left at its start.
pub proof fn lemma_blank_start(blank: Seq<char>, s: Seq<char>)
    requires
        is_blank(blank),
    ensures
        Text::trimmed_start(blank + s) == Text::trimmed_start(s),
    decreases blank.len(),
{
    if blank.len() == 0 {
        assert(blank + s =~= s);
    } else {
        assert(Text::is_space(blank[0]));
        assert((blank + s).drop_first() =~= blank.drop_first() + s);
        assert forall|i: int| 0 <= i < blank.drop_first().len() implies Text::is_space(
            #[trigger] blank.drop_first()[i],
        ) by {
            assert(Text::is_space(blank[i + 1]));
        }
        lemma_blank_start(blank.drop_first(), s);
    }
}

/// White space behind a text does not matter to what is left at its end.
pub proof fn lemma_blank_end(s: Seq<char>, blank: Seq<char>)
    requires
        is_blank(blank),
    ensures
        Text::trimmed_end(s + blank) == Text::trimmed_end(s),
    decreases blank.len(),
{
    if blank.len() == 0 {
        assert(s + blank =~= s);
    } else {
        assert(Text::is_space(blank[blank.len() - 1]));
        assert((s + blank).last() == blank.last());
        assert((s + blank).drop_last() =~= s + blank.drop_last());
        assert forall|i: int| 0 <= i < blank.drop_last().len() implies Text::is_space(
            #[trigger] blank.drop_last()[i],
        ) by {
            assert(Text::is_space(blank[i]));
        }
        lemma_blank_end(s, blank.drop_last());
    }
}

/// Trimming takes the white space around a text away, and nothing else: what neither starts nor
/// ends with white space is found again in the middle of it.
pub proof fn law_trimming(before: Seq<char>, s: Seq<char>, after: Seq<char>)
    requires
        is_blank(before),
        is_blank(after),
        s.len() > 0 ==> !Text::is_space(s[0]) && !Text::is_space(s.last()),
    ensures
        Text::trimmed(before + s + after) == s,
{
    assert(before + s + after =~= before + (s + after));
    lemma_blank_start(before, s + after);
    if s.len() > 0 {
        assert((s + after)[0] == s[0]);
        lemma_blank_end(s, after);
    } else {
        assert(s + after =~= after + s);
        lemma_blank_start(after, s);
        assert(Text::trimmed_start(s) =~= s);
    }
}

/// A text that starts with a word.
pub proof fn lemma_word_found(word: Seq<char>, rest: Seq<char>)
    requires
        Text::is_word(word),
        rest.len() > 0 ==> Text::is_space(rest[0]),
    ensures
        Text::word_length(word + rest) == word.len(),
    decreases word.len(),
{
    let s = word + rest;
    assert(!Text::is_space(word[0]));
    assert(s[0] == word[0]);
    assert(s.drop_first() =~= word.drop_first() + rest);
    if word.len() > 1 {
        assert forall|i: int| 0 <= i < word.drop_first().len() implies !Text::is_space(
            #[trigger] word.drop_first()[i],
        ) by {
            assert(!Text::is_space(word[i + 1]));
        }
        lemma_word_found(word.drop_first(), rest);
    } else {
        assert(word.drop_first() + rest =~= rest);
        assert(Text::word_length(rest) == 0);
    }
}

/// The words of a text that starts with white space and a word are this one and those of the rest.
pub proof fn law_words(blank: Seq<char>, word: Seq<char>, rest: Seq<char>)
    requires
        is_blank(blank),
        Text::is_word(word),
        rest.len() > 0 ==> Text::is_space(rest[0]),
    ensures
        Text::words(blank) == Seq::<Seq<char>>::empty(),
        Text::words(blank + word + rest) == seq![word] + Text::words(rest),
{
    let s = word + rest;
    assert(blank + word + rest =~= blank + s);
    lemma_blank_start(blank, s);
    assert(!Text::is_space(word[0]));
    assert(s[0] == word[0]);
    assert(Text::trimmed_start(s) == s);
    lemma_word_found(word, rest);
    assert(s.take(word.len() as int) =~= word);
    assert(s.skip(word.len() as int) =~= rest);
    lemma_blank_start(blank, Seq::empty());
    assert(blank + Seq::<char>::empty() =~= blank);
    assert(Text::trimmed_start(Seq::<char>::empty()).len() == 0);
}

/// A line ends at its line feed, with the carriage return before that left out; what follows is
/// made of lines by itself. A text without a line feed is one line, and the empty one none.
pub proof fn law_line_ends(line: Seq<char>, rest: Seq<char>)
    requires
        !line.contains('\n'),
    ensures
        Text::lines(line + seq!['\r', '\n'] + rest) == seq![line] + Text::lines(rest),
        line.len() == 0 || line.last() != '\r' ==> Text::lines(line + seq!['\n'] + rest) == seq![
            line,
        ] + Text::lines(rest),
        line.len() > 0 ==> Text::lines(line) == seq![line],
        Text::lines(Seq::empty()) == Seq::<Seq<char>>::empty(),
{
    let n = line.len() as int;
    assert forall|i: int| 0 <= i < n implies line[i] != '\n' by {
        if line[i] == '\n' {
            assert(line.contains('\n'));
        }
    }
    let both = line + seq!['\r', '\n'] + rest;
    lemma_position_found(both, '\n', n + 1);
    assert(both.take(n + 1) =~= line.push('\r'));
    assert(both.take(n + 1).drop_last() =~= line);
    assert(both.skip(n + 2) =~= rest);
    let one = line + seq!['\n'] + rest;
    lemma_position_found(one, '\n', n);
    assert(one.take(n) =~= line);
    assert(one.skip(n + 1) =~= rest);
    lemma_position_found(line, '\n', n);
}

/// What a text starts with, and what it ends with, is taken away however often it is there, and
/// nothing else is.
pub proof fn law_ends_taken_away(s: Seq<char>, c: char)
    ensures
        Text::without_leading(seq![c] + s, c) == Text::without_leading(s, c),
        Text::without_trailing(s.push(c), c) == Text::without_trailing(s, c),
        s.len() == 0 || s[0] != c ==> Text::without_leading(s, c) == s,
        s.len() == 0 || s.last() != c ==> Text::without_trailing(s, c) == s,
{
    assert((seq![c] + s).drop_first() =~= s);
    assert(s.push(c).drop_last() =~= s);
}

/// A text begins with what it was put behind, and with nothing that differs from it.
pub proof fn law_beginnings(prefix: Seq<char>, rest: Seq<char>, s: Seq<char>)
    ensures
        Text::begins(prefix + rest, prefix),
        Text::begins(s, prefix) == (exists|tail: Seq<char>| s == #[trigger] (prefix + tail)),
        prefix.len() > 0 ==> Text::without_prefixes(prefix + rest, prefix)
            == Text::without_prefixes(rest, prefix),
        !Text::begins(s, prefix) ==> Text::without_prefixes(s, prefix) == s,
{
    let n = prefix.len() as int;
    assert((prefix + rest).take(n) =~= prefix);
    assert((prefix + rest).skip(n) =~= rest);
    if Text::begins(s, prefix) {
        assert(s =~= prefix + s.skip(n));
    }
    if exists|tail: Seq<char>| s == #[trigger] (prefix + tail) {
        let tail = choose|tail: Seq<char>| s == #[trigger] (prefix + tail);
        assert((prefix + tail).take(n) =~= prefix);
    }
}

/// One more digit makes a number ten times as large and adds the digit; a plus sign before digits
/// changes nothing; and what holds another character, or no digit, is no number.
pub proof fn law_digits(s: Seq<char>, d: nat, max: nat)
    requires
        d < 10,
    ensures
        Text::number(seq![Text::digit(d)], 9) == Some(d),
        s.len() > 0 && Text::all_digits(s) && 10 * Text::value(s) + d <= max ==> Text::number(
            s.push(Text::digit(d)),
            max,
        ) == Some((10 * Text::value(s) + d) as nat),
        s.len() > 0 && Text::all_digits(s) ==> Text::number(seq!['+'] + s, max) == Text::number(
            s,
            max,
        ),
        Text::number(Seq::empty(), max) is None,
        !Text::all_digits(Text::without_plus(s)) ==> Text::number(s, max) is None,
        Text::number(s, max) matches Some(n) ==> n <= max,
        Text::digit(d) as nat == 48 + d,
{
    let one = seq![Text::digit(d)];
    assert(one.drop_last() =~= Seq::<char>::empty());
    assert(Text::value(Seq::<char>::empty()) == 0);
    assert(Text::all_digits(one));
    let more = s.push(Text::digit(d));
    assert(more.drop_last() =~= s);
    if s.len() > 0 && Text::all_digits(s) {
        assert(Text::is_digit(s[0]));
        assert(Text::all_digits(more)) by {
            assert forall|i: int| 0 <= i < more.len() implies Text::is_digit(#[trigger] more[i]) by {
                if i < s.len() {
                    assert(Text::is_digit(s[i]));
                }
            }
        }
        assert(more[0] == s[0]);
        assert((seq!['+'] + s).drop_first() =~= s);
    }
}

/// A number is written without a leading zero.
pub proof fn law_no_leading_zero(n: nat)
    ensures
        n > 0 ==> Text::decimal(n)[0] != '0',
        n < 10 ==> Text::decimal(n).len() == 1,
        n >= 10 ==> Text::decimal(n).len() == Text::decimal(n / 10).len() + 1,
    decreases n,
{
    if n >= 10 {
        law_no_leading_zero(n / 10);
        lemma_decimal(n / 10);
    }
}

/// A path is joined by one slash, unless it is empty or ends with one already.
pub proof fn law_paths_joined(dir: Seq<char>, name: Seq<char>)
    requires
        dir.len() > 0,
        dir.last() != '/',
    ensures
        Text::joined(dir, name) == dir + seq!['/'] + name,
        Text::joined(dir.push('/'), name) == Text::joined(dir, name),
        Text::joined(Seq::empty(), name) == name,
{
    reveal_strlit("/");
    assert("/"@ =~= seq!['/']);
    assert(dir.push('/') + name =~= dir + seq!['/'] + name);
    assert(Seq::<char>::empty() + name =~= name);
}

/// One character is put in the place of another wherever that is, and no other is changed.
pub proof fn law_replacing(s: Seq<char>, from: char, to: char, i: int)
    requires
        0 <= i < s.len(),
    ensures
        Text::replaced(s, from, to).len() == s.len(),
        s[i] == from ==> Text::replaced(s, from, to)[i] == to,
        s[i] != from ==> Text::replaced(s, from, to)[i] == s[i],
{
}

} // verus!
