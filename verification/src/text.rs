//! Text as a sequence of characters.

use vstd::prelude::*;
use vstd::slice::slice_subrange;

pub mod laws;

verus! {

/// `String::push` appends a character to the end of the string.
pub assume_specification[ String::push ](text: &mut String, c: char)
    ensures
        final(text)@ == old(text)@.push(c),
;

/// What `char::is_alphanumeric` says of a character that is not ASCII.
pub uninterp spec fn unicode_alphanumeric(c: char) -> bool;

/// `char::is_alphanumeric` tells letters and digits from other characters. Of the ASCII
/// characters these are `0` to `9`, `A` to `Z` and `a` to `z`; of the others the result is named,
/// not described.
pub assume_specification[ char::is_alphanumeric ](c: char) -> (r: bool)
    ensures
        r == (if c <= '\u{7f}' {
            Text::is_ascii_alphanumeric(c)
        } else {
            unicode_alphanumeric(c)
        }),
;

/// What `str::to_lowercase` makes of a text that is not all ASCII.
pub uninterp spec fn unicode_lowercase(s: Seq<char>) -> Seq<char>;

/// `str::to_lowercase` turns upper case into lower case. In a text of ASCII characters only `A`
/// to `Z` change; of other texts the result is named, not described.
pub assume_specification[ str::to_lowercase ](s: &str) -> (r: String)
    ensures
        r@ == (if vstd::utf8::is_ascii_chars(s@) {
            Text::ascii_lowercase(s@)
        } else {
            unicode_lowercase(s@)
        }),
;

/// Functions on text.
pub struct Text;

impl Text {
    pub open spec fn is_ascii_alphanumeric(c: char) -> bool {
        '0' <= c <= '9' || 'A' <= c <= 'Z' || 'a' <= c <= 'z'
    }

    /// Is the character a letter or a digit?
    pub open spec fn is_alphanumeric(c: char) -> bool {
        if c <= '\u{7f}' {
            Self::is_ascii_alphanumeric(c)
        } else {
            unicode_alphanumeric(c)
        }
    }

    pub open spec fn ascii_lowercase(s: Seq<char>) -> Seq<char> {
        s.map_values(
            |c: char|
                if 'A' <= c <= 'Z' {
                    (c as u32 + 32) as char
                } else {
                    c
                },
        )
    }

    /// The text in lower case.
    pub open spec fn lowercase(s: Seq<char>) -> Seq<char> {
        if vstd::utf8::is_ascii_chars(s) {
            Self::ascii_lowercase(s)
        } else {
            unicode_lowercase(s)
        }
    }
}

impl Text {
    /// The characters with the Unicode property White_Space.
    pub open spec fn is_space(c: char) -> bool {
        ||| '\u{9}' <= c <= '\u{d}'
        ||| c == ' ' || c == '\u{85}' || c == '\u{a0}' || c == '\u{1680}'
        ||| '\u{2000}' <= c <= '\u{200a}'
        ||| c == '\u{2028}' || c == '\u{2029}' || c == '\u{202f}' || c == '\u{205f}'
        ||| c == '\u{3000}'
    }

    /// The text without the white space at its start.
    pub open spec fn trimmed_start(s: Seq<char>) -> Seq<char>
        decreases s.len(),
    {
        if s.len() > 0 && Self::is_space(s[0]) {
            Self::trimmed_start(s.drop_first())
        } else {
            s
        }
    }

    /// The text without the white space at its end.
    pub open spec fn trimmed_end(s: Seq<char>) -> Seq<char>
        decreases s.len(),
    {
        if s.len() > 0 && Self::is_space(s.last()) {
            Self::trimmed_end(s.drop_last())
        } else {
            s
        }
    }

    /// The text without the white space around it.
    pub open spec fn trimmed(s: Seq<char>) -> Seq<char> {
        Self::trimmed_end(Self::trimmed_start(s))
    }

    /// Where `c` first occurs, or the length of the text where it does not.
    pub open spec fn position(s: Seq<char>, c: char) -> nat
        decreases s.len(),
    {
        if s.len() == 0 || s[0] == c {
            0
        } else {
            1 + Self::position(s.drop_first(), c)
        }
    }

    /// The length of the word that the text starts with.
    pub open spec fn word_length(s: Seq<char>) -> nat
        decreases s.len(),
    {
        if s.len() == 0 || Self::is_space(s[0]) {
            0
        } else {
            1 + Self::word_length(s.drop_first())
        }
    }

    /// The pieces of the text between white space.
    pub open spec fn words(s: Seq<char>) -> Seq<Seq<char>>
        decreases s.len(),
    {
        let rest = Self::trimmed_start(s);
        if rest.len() == 0 {
            Seq::empty()
        } else {
            proof {
                lemma_trimmed_start(s);
                lemma_word_length(rest);
            }
            seq![rest.take(Self::word_length(rest) as int)] + Self::words(
                rest.skip(Self::word_length(rest) as int),
            )
        }
    }

    pub open spec fn without_return(s: Seq<char>) -> Seq<char> {
        if s.len() > 0 && s.last() == '\r' {
            s.drop_last()
        } else {
            s
        }
    }

    /// The lines of the text: each ends with a line feed, which a carriage return may precede;
    /// the last one may lack it.
    pub open spec fn lines(s: Seq<char>) -> Seq<Seq<char>>
        decreases s.len(),
    {
        let end = Self::position(s, '\n') as int;
        if s.len() == 0 {
            Seq::empty()
        } else if end >= s.len() {
            seq![s]
        } else {
            seq![Self::without_return(s.take(end))] + Self::lines(s.skip(end + 1))
        }
    }

    /// The pieces of the text between the occurrences of `c`.
    pub open spec fn pieces(s: Seq<char>, c: char) -> Seq<Seq<char>>
        decreases s.len(),
    {
        let end = Self::position(s, c) as int;
        if end >= s.len() {
            seq![s]
        } else {
            seq![s.take(end)] + Self::pieces(s.skip(end + 1), c)
        }
    }

    /// The text without the `c` that it starts with, however many.
    pub open spec fn without_leading(s: Seq<char>, c: char) -> Seq<char>
        decreases s.len(),
    {
        if s.len() > 0 && s[0] == c {
            Self::without_leading(s.drop_first(), c)
        } else {
            s
        }
    }

    /// The text without the `c` that it ends with, however many.
    pub open spec fn without_trailing(s: Seq<char>, c: char) -> Seq<char>
        decreases s.len(),
    {
        if s.len() > 0 && s.last() == c {
            Self::without_trailing(s.drop_last(), c)
        } else {
            s
        }
    }

    pub open spec fn begins(s: Seq<char>, prefix: Seq<char>) -> bool {
        prefix.len() <= s.len() && s.take(prefix.len() as int) == prefix
    }

    /// The text without the prefix, as often as it starts with it.
    pub open spec fn without_prefixes(s: Seq<char>, prefix: Seq<char>) -> Seq<char>
        decreases s.len(),
    {
        if prefix.len() > 0 && Self::begins(s, prefix) {
            Self::without_prefixes(s.skip(prefix.len() as int), prefix)
        } else {
            s
        }
    }

    pub open spec fn is_digit(c: char) -> bool {
        '0' <= c <= '9'
    }

    pub open spec fn digit(d: nat) -> char {
        (48 + d) as char
    }

    /// The decimal digits of a number.
    pub open spec fn decimal(n: nat) -> Seq<char>
        decreases n,
    {
        if n < 10 {
            seq![Self::digit(n)]
        } else {
            Self::decimal(n / 10).push(Self::digit(n % 10))
        }
    }

    /// The value of decimal digits.
    pub open spec fn value(s: Seq<char>) -> nat
        decreases s.len(),
    {
        if s.len() == 0 {
            0
        } else {
            (10 * Self::value(s.drop_last()) + (s.last() as nat - 48)) as nat
        }
    }

    pub open spec fn all_digits(s: Seq<char>) -> bool {
        forall|i: int| 0 <= i < s.len() ==> Self::is_digit(#[trigger] s[i])
    }

    pub open spec fn without_plus(s: Seq<char>) -> Seq<char> {
        if s.len() > 0 && s[0] == '+' {
            s.drop_first()
        } else {
            s
        }
    }

    /// The number that the text denotes: digits, which a plus sign may precede.
    pub open spec fn number(s: Seq<char>, max: nat) -> Option<nat> {
        let digits = Self::without_plus(s);
        if digits.len() > 0 && Self::all_digits(digits) && Self::value(digits) <= max {
            Some(Self::value(digits))
        } else {
            None
        }
    }
}

/// Trimming leaves a suffix that does not start with white space.
pub proof fn lemma_trimmed_start(s: Seq<char>)
    ensures
        Text::trimmed_start(s).len() <= s.len(),
        Text::trimmed_start(s) == s.skip(s.len() - Text::trimmed_start(s).len()),
        Text::trimmed_start(s).len() > 0 ==> !Text::is_space(Text::trimmed_start(s)[0]),
    decreases s.len(),
{
    if s.len() > 0 && Text::is_space(s[0]) {
        lemma_trimmed_start(s.drop_first());
        let rest = Text::trimmed_start(s.drop_first());
        assert(s.skip(s.len() - rest.len()) =~= s.drop_first().skip(
            s.drop_first().len() - rest.len(),
        ));
    } else {
        assert(s.skip(0) =~= s);
    }
}

pub proof fn lemma_word_length(s: Seq<char>)
    ensures
        Text::word_length(s) <= s.len(),
        s.len() > 0 && !Text::is_space(s[0]) ==> Text::word_length(s) > 0,
    decreases s.len(),
{
    if s.len() > 0 && !Text::is_space(s[0]) {
        lemma_word_length(s.drop_first());
    }
}

pub proof fn lemma_position(s: Seq<char>, c: char)
    ensures
        Text::position(s, c) <= s.len(),
        Text::position(s, c) < s.len() ==> s[Text::position(s, c) as int] == c,
        forall|i: int| 0 <= i < Text::position(s, c) ==> s[i] != c,
    decreases s.len(),
{
    if s.len() > 0 && s[0] != c {
        lemma_position(s.drop_first(), c);
        assert forall|i: int| 0 <= i < Text::position(s, c) implies s[i] != c by {
            if i > 0 {
                assert(s.drop_first()[i - 1] == s[i]);
            }
        }
    }
}

/// The first occurrence of a character is where it stands and nothing before it equals it.
pub proof fn lemma_position_found(s: Seq<char>, c: char, at: int)
    requires
        0 <= at <= s.len(),
        at < s.len() ==> s[at] == c,
        forall|i: int| 0 <= i < at ==> s[i] != c,
    ensures
        Text::position(s, c) == at,
{
    lemma_position(s, c);
}

impl Text {
    /// The characters of a text.
    pub fn chars(text: &str) -> (r: Vec<char>)
        ensures
            r@ == text@,
    {
        let mut r: Vec<char> = Vec::new();
        for c in iter: text.chars()
            invariant
                r@ == text@.take(iter.index() as int),
                iter.seq() == text@,
        {
            r.push(c);
            assert(text@.take(iter.index() + 1) =~= text@.take(iter.index() as int).push(c));
        }
        assert(text@.take(text@.len() as int) =~= text@);
        r
    }

    /// The text of the characters.
    pub fn string(chars: &[char]) -> (r: String)
        ensures
            r@ == chars@,
    {
        let mut r: String = String::new();
        let mut i: usize = 0;
        while i < chars.len()
            invariant
                i <= chars@.len(),
                r@ == chars@.take(i as int),
            decreases chars@.len() - i,
        {
            r.push(chars[i]);
            i = i + 1;
            assert(chars@.take(i as int) =~= chars@.take(i - 1).push(chars@[i - 1]));
        }
        assert(chars@.take(i as int) =~= chars@);
        r
    }
}

impl Text {
    pub fn is_white(c: char) -> (r: bool)
        ensures
            r == Self::is_space(c),
    {
        ('\u{9}' <= c && c <= '\u{d}') || c == ' ' || c == '\u{85}' || c == '\u{a0}' || c
            == '\u{1680}' || ('\u{2000}' <= c && c <= '\u{200a}') || c == '\u{2028}' || c
            == '\u{2029}' || c == '\u{202f}' || c == '\u{205f}' || c == '\u{3000}'
    }

    /// The text without the white space at its start.
    pub fn trim_start(s: &[char]) -> (r: &[char])
        ensures
            r@ == Self::trimmed_start(s@),
    {
        let mut i: usize = 0;
        assert(s@.skip(0) =~= s@);
        while i < s.len() && Self::is_white(s[i])
            invariant
                i <= s@.len(),
                Self::trimmed_start(s@) == Self::trimmed_start(s@.skip(i as int)),
            decreases s@.len() - i,
        {
            assert(s@.skip(i as int).drop_first() =~= s@.skip(i + 1));
            i = i + 1;
        }
        assert(s@.subrange(i as int, s@.len() as int) =~= s@.skip(i as int));
        slice_subrange(s, i, s.len())
    }

    /// The text without the white space around it.
    pub fn trim(s: &[char]) -> (r: &[char])
        ensures
            r@ == Self::trimmed(s@),
    {
        let t: &[char] = Self::trim_start(s);
        let mut n: usize = t.len();
        assert(t@.take(n as int) =~= t@);
        while n > 0 && Self::is_white(t[n - 1])
            invariant
                n <= t@.len(),
                Self::trimmed_end(t@) == Self::trimmed_end(t@.take(n as int)),
            decreases n,
        {
            assert(t@.take(n as int).drop_last() =~= t@.take(n - 1));
            n = n - 1;
        }
        assert(t@.subrange(0, n as int) =~= t@.take(n as int));
        slice_subrange(t, 0, n)
    }

    /// Where `c` first occurs, or the length of the text where it does not.
    pub fn find(s: &[char], c: char) -> (r: usize)
        ensures
            r == Self::position(s@, c),
            r <= s@.len(),
    {
        let mut i: usize = 0;
        while i < s.len() && s[i] != c
            invariant
                i <= s@.len(),
                forall|j: int| 0 <= j < i ==> s@[j] != c,
            decreases s@.len() - i,
        {
            i = i + 1;
        }
        proof {
            lemma_position_found(s@, c, i as int);
        }
        i
    }

    /// Texts in a row, with something between each two.
    pub open spec fn separated(texts: Seq<Seq<char>>, by: Seq<char>) -> Seq<char>
        decreases texts.len(),
    {
        if texts.len() == 0 {
            Seq::empty()
        } else if texts.len() == 1 {
            texts[0]
        } else {
            texts[0] + by + Self::separated(texts.skip(1), by)
        }
    }

    /// Lines in a row, each with its end.
    pub open spec fn ended(lines: Seq<Seq<char>>) -> Seq<char>
        decreases lines.len(),
    {
        if lines.len() == 0 {
            Seq::empty()
        } else {
            lines[0] + "\n"@ + Self::ended(lines.skip(1))
        }
    }

    /// A text that neither holds an end of line nor could be part of one.
    pub open spec fn is_line(s: Seq<char>) -> bool {
        !s.contains('\n') && (s.len() > 0 ==> s.last() != '\r')
    }

    /// A text that is not empty and holds no white space.
    pub open spec fn is_word(s: Seq<char>) -> bool {
        s.len() > 0 && forall|i: int| 0 <= i < s.len() ==> !Self::is_space(#[trigger] s[i])
    }

    /// The text with one character in the place of another.
    pub open spec fn replaced(s: Seq<char>, from: char, to: char) -> Seq<char> {
        s.map_values(
            |c: char|
                if c == from {
                    to
                } else {
                    c
                },
        )
    }

    /// A path one component longer.
    pub open spec fn joined(dir: Seq<char>, name: Seq<char>) -> Seq<char> {
        if dir.len() > 0 && dir.last() != '/' {
            dir + "/"@ + name
        } else {
            dir + name
        }
    }

    /// What some texts hold.
    pub open spec fn texts(texts: Seq<String>) -> Seq<Seq<char>> {
        texts.map_values(|text: String| text@)
    }

    /// The texts of the pieces.
    pub open spec fn contents(pieces: Seq<Vec<char>>) -> Seq<Seq<char>> {
        pieces.map_values(|piece: Vec<char>| piece@)
    }

    /// The pieces of the text between white space.
    pub fn split_words(s: &[char]) -> (r: Vec<Vec<char>>)
        ensures
            Self::contents(r@) == Self::words(s@),
    {
        let mut r: Vec<Vec<char>> = Vec::new();
        let mut rest: &[char] = s;
        assert(Self::contents(r@) + Self::words(rest@) =~= Self::words(s@));
        loop
            invariant
                Self::contents(r@) + Self::words(rest@) == Self::words(s@),
            ensures
                Self::contents(r@) == Self::words(s@),
            decreases rest@.len(),
        {
            let t: &[char] = Self::trim_start(rest);
            proof {
                lemma_trimmed_start(rest@);
                lemma_word_length(t@);
            }
            if t.len() == 0 {
                assert(Self::contents(r@) + Seq::<Seq<char>>::empty() =~= Self::contents(r@));
                break;
            }
            let mut n: usize = 0;
            assert(t@.skip(0) =~= t@);
            while n < t.len() && !Self::is_white(t[n])
                invariant
                    n <= t@.len(),
                    Self::word_length(t@) == n + Self::word_length(t@.skip(n as int)),
                decreases t@.len() - n,
            {
                assert(t@.skip(n as int).drop_first() =~= t@.skip(n + 1));
                n = n + 1;
            }
            assert(Self::word_length(t@) == n);
            let word: Vec<char> = vstd::slice::slice_to_vec(slice_subrange(t, 0, n));
            assert(word@ =~= t@.take(n as int));
            let ghost before = r@;
            r.push(word);
            assert(Self::contents(r@) =~= Self::contents(before) + seq![t@.take(n as int)]);
            let next: &[char] = slice_subrange(t, n, t.len());
            assert(next@ =~= t@.skip(n as int));
            assert(Self::contents(before) + (seq![t@.take(n as int)] + Self::words(next@))
                =~= Self::contents(r@) + Self::words(next@));
            rest = next;
        }
        r
    }

    /// The lines of the text.
    pub fn split_lines(s: &[char]) -> (r: Vec<Vec<char>>)
        ensures
            Self::contents(r@) == Self::lines(s@),
    {
        let mut r: Vec<Vec<char>> = Vec::new();
        let mut rest: &[char] = s;
        assert(Self::contents(r@) + Self::lines(rest@) =~= Self::lines(s@));
        while rest.len() > 0
            invariant
                Self::contents(r@) + Self::lines(rest@) == Self::lines(s@),
            decreases rest@.len(),
        {
            let end: usize = Self::find(rest, '\n');
            let ghost before = r@;
            if end == rest.len() {
                r.push(vstd::slice::slice_to_vec(rest));
                assert(Self::contents(r@) =~= Self::contents(before) + seq![rest@]);
                let none: &[char] = slice_subrange(rest, 0, 0);
                assert(Self::lines(none@) =~= Seq::<Seq<char>>::empty());
                assert(Self::contents(r@) + Self::lines(none@) =~= Self::contents(r@));
                rest = none;
            } else {
                let mut n: usize = end;
                let ghost line = rest@.take(end as int);
                if n > 0 && rest[n - 1] == '\r' {
                    n = n - 1;
                    assert(line.drop_last() =~= rest@.take(n as int));
                }
                r.push(vstd::slice::slice_to_vec(slice_subrange(rest, 0, n)));
                assert(rest@.subrange(0, n as int) =~= Self::without_return(line));
                assert(Self::contents(r@) =~= Self::contents(before) + seq![
                    Self::without_return(line),
                ]);
                let next: &[char] = slice_subrange(rest, end + 1, rest.len());
                assert(next@ =~= rest@.skip(end + 1));
                assert(Self::contents(before) + (seq![Self::without_return(line)] + Self::lines(
                    next@,
                )) =~= Self::contents(r@) + Self::lines(next@));
                rest = next;
            }
        }
        assert(Self::contents(r@) + Seq::<Seq<char>>::empty() =~= Self::contents(r@));
        r
    }

    /// The pieces of the text between the occurrences of `c`.
    pub fn split(s: &[char], c: char) -> (r: Vec<Vec<char>>)
        ensures
            Self::contents(r@) == Self::pieces(s@, c),
    {
        let mut r: Vec<Vec<char>> = Vec::new();
        let mut rest: &[char] = s;
        assert(Self::contents(r@) + Self::pieces(rest@, c) =~= Self::pieces(s@, c));
        loop
            invariant_except_break
                Self::contents(r@) + Self::pieces(rest@, c) == Self::pieces(s@, c),
            ensures
                Self::contents(r@) == Self::pieces(s@, c),
            decreases rest@.len(),
        {
            let end: usize = Self::find(rest, c);
            let ghost before = r@;
            if end == rest.len() {
                r.push(vstd::slice::slice_to_vec(rest));
                assert(Self::contents(r@) =~= Self::contents(before) + seq![rest@]);
                break;
            }
            r.push(vstd::slice::slice_to_vec(slice_subrange(rest, 0, end)));
            assert(rest@.subrange(0, end as int) =~= rest@.take(end as int));
            assert(Self::contents(r@) =~= Self::contents(before) + seq![rest@.take(end as int)]);
            let next: &[char] = slice_subrange(rest, end + 1, rest.len());
            assert(next@ =~= rest@.skip(end + 1));
            assert(Self::contents(before) + (seq![rest@.take(end as int)] + Self::pieces(
                next@,
                c,
            )) =~= Self::contents(r@) + Self::pieces(next@, c));
            rest = next;
        }
        r
    }

    /// The text without the `c` that it starts with.
    pub fn trim_leading(s: &[char], c: char) -> (r: &[char])
        ensures
            r@ == Self::without_leading(s@, c),
    {
        let mut i: usize = 0;
        assert(s@.skip(0) =~= s@);
        while i < s.len() && s[i] == c
            invariant
                i <= s@.len(),
                Self::without_leading(s@, c) == Self::without_leading(s@.skip(i as int), c),
            decreases s@.len() - i,
        {
            assert(s@.skip(i as int).drop_first() =~= s@.skip(i + 1));
            i = i + 1;
        }
        assert(s@.subrange(i as int, s@.len() as int) =~= s@.skip(i as int));
        slice_subrange(s, i, s.len())
    }

    /// The text without the `c` that it ends with.
    pub fn trim_trailing(s: &[char], c: char) -> (r: &[char])
        ensures
            r@ == Self::without_trailing(s@, c),
    {
        let mut n: usize = s.len();
        assert(s@.take(n as int) =~= s@);
        while n > 0 && s[n - 1] == c
            invariant
                n <= s@.len(),
                Self::without_trailing(s@, c) == Self::without_trailing(s@.take(n as int), c),
            decreases n,
        {
            assert(s@.take(n as int).drop_last() =~= s@.take(n - 1));
            n = n - 1;
        }
        assert(s@.subrange(0, n as int) =~= s@.take(n as int));
        slice_subrange(s, 0, n)
    }

    /// Does the text start with the prefix?
    pub fn starts_with(s: &[char], prefix: &[char]) -> (r: bool)
        ensures
            r == Self::begins(s@, prefix@),
    {
        if s.len() < prefix.len() {
            return false;
        }
        let mut i: usize = 0;
        while i < prefix.len()
            invariant
                i <= prefix@.len() <= s@.len(),
                forall|j: int| 0 <= j < i ==> s@[j] == prefix@[j],
            decreases prefix@.len() - i,
        {
            if s[i] != prefix[i] {
                assert(s@.take(prefix@.len() as int)[i as int] != prefix@[i as int]);
                return false;
            }
            i = i + 1;
        }
        assert(s@.take(prefix@.len() as int) =~= prefix@);
        true
    }

    /// Are the two texts the same?
    pub fn same(s: &[char], other: &str) -> (r: bool)
        ensures
            r == (s@ == other@),
    {
        let o: Vec<char> = Self::chars(other);
        if s.len() != o.len() {
            return false;
        }
        let r: bool = Self::starts_with(s, o.as_slice());
        assert(s@.take(s@.len() as int) =~= s@);
        r
    }

    /// The text without the prefix, as often as it starts with it.
    pub fn trim_prefixes<'a>(s: &'a [char], prefix: &[char]) -> (r: &'a [char])
        ensures
            r@ == Self::without_prefixes(s@, prefix@),
    {
        let mut rest: &'a [char] = s;
        while prefix.len() > 0 && Self::starts_with(rest, prefix)
            invariant
                Self::without_prefixes(s@, prefix@) == Self::without_prefixes(rest@, prefix@),
            decreases rest@.len(),
        {
            let next: &'a [char] = slice_subrange(rest, prefix.len(), rest.len());
            assert(next@ =~= rest@.skip(prefix@.len() as int));
            rest = next;
        }
        rest
    }

    /// A path one component longer.
    pub fn join(dir: &str, name: &str) -> (r: String)
        ensures
            r@ == Self::joined(dir@, name@),
    {
        let chars: Vec<char> = Self::chars(dir);
        let start: String = String::from_str(dir);
        if chars.len() > 0 && chars[chars.len() - 1] != '/' {
            start.concat("/").concat(name)
        } else {
            start.concat(name)
        }
    }

    /// Texts in a row, with something between each two.
    pub fn separate(texts: &Vec<&str>, by: &str) -> (r: String)
        ensures
            r@ == Self::separated(texts@.map_values(|text: &str| text@), by@),
    {
        let ghost all = texts@.map_values(|text: &str| text@);
        let mut r: String = String::new();
        let mut i: usize = 0;
        assert(all.skip(0) =~= all);
        assert(r@ + Self::separated(all, by@) =~= Self::separated(all, by@));
        while i < texts.len()
            invariant
                i <= texts@.len(),
                all == texts@.map_values(|text: &str| text@),
                r@ + Self::separated(all.skip(i as int), by@) == Self::separated(all, by@),
            decreases texts@.len() - i,
        {
            let ghost before = r@;
            let text: &str = texts[i];
            proof {
                assert(all.skip(i as int)[0] == text@);
                assert(all.skip(i as int).skip(1) =~= all.skip(i + 1));
            }
            r = r.concat(text);
            if i + 1 < texts.len() {
                r = r.concat(by);
                assert(r@ + Self::separated(all.skip(i + 1), by@) =~= before + (text@ + by@
                    + Self::separated(all.skip(i + 1), by@)));
            } else {
                assert(r@ + Self::separated(all.skip(i + 1), by@) =~= before + text@);
            }
            i = i + 1;
        }
        assert(r@ + Self::separated(all.skip(i as int), by@) =~= r@);
        r
    }

    /// Lines in a row, each with its end.
    pub fn end_lines(lines: &Vec<String>) -> (r: String)
        ensures
            r@ == Self::ended(Self::texts(lines@)),
    {
        let ghost all = Self::texts(lines@);
        let mut r: String = String::new();
        let mut i: usize = 0;
        assert(all.skip(0) =~= all);
        assert(r@ + Self::ended(all) =~= Self::ended(all));
        while i < lines.len()
            invariant
                i <= lines@.len(),
                all == Self::texts(lines@),
                r@ + Self::ended(all.skip(i as int)) == Self::ended(all),
            decreases lines@.len() - i,
        {
            let ghost before = r@;
            let line: &str = lines[i].as_str();
            proof {
                assert(all.skip(i as int)[0] == line@);
                assert(all.skip(i as int).skip(1) =~= all.skip(i + 1));
            }
            r = r.concat(line).concat("\n");
            assert(r@ + Self::ended(all.skip(i + 1)) =~= before + (line@ + "\n"@ + Self::ended(
                all.skip(i + 1),
            )));
            i = i + 1;
        }
        assert(r@ + Self::ended(all.skip(i as int)) =~= r@);
        r
    }

    /// The text with one character in the place of another.
    pub fn replace(text: &str, from: char, to: char) -> (r: String)
        ensures
            r@ == Self::replaced(text@, from, to),
    {
        let chars: Vec<char> = Self::chars(text);
        let mut r: String = String::new();
        let mut i: usize = 0;
        while i < chars.len()
            invariant
                i <= chars@.len(),
                chars@ == text@,
                r@ == Self::replaced(text@, from, to).take(i as int),
            decreases chars@.len() - i,
        {
            let c: char = if chars[i] == from {
                to
            } else {
                chars[i]
            };
            r.push(c);
            assert(Self::replaced(text@, from, to).take(i + 1) =~= Self::replaced(
                text@,
                from,
                to,
            ).take(i as int).push(c));
            i = i + 1;
        }
        assert(Self::replaced(text@, from, to).take(i as int) =~= Self::replaced(text@, from, to));
        r
    }

    /// Texts of their own.
    pub fn list(texts: Vec<&str>) -> (r: Vec<String>)
        ensures
            Self::texts(r@) == texts@.map_values(|text: &str| text@),
    {
        let mut r: Vec<String> = Vec::new();
        let mut i: usize = 0;
        while i < texts.len()
            invariant
                i <= texts@.len(),
                r@.len() == i,
                forall|j: int| 0 <= j < i ==> (#[trigger] r@[j])@ == texts@[j]@,
            decreases texts@.len() - i,
        {
            r.push(String::from_str(texts[i]));
            i = i + 1;
        }
        assert(Self::texts(r@) =~= texts@.map_values(|text: &str| text@));
        r
    }

    /// The decimal digits of a number.
    pub fn to_decimal(n: u64) -> (r: String)
        ensures
            r@ == Self::decimal(n as nat),
        decreases n,
    {
        if n < 10 {
            let mut r: String = String::new();
            r.push((48u8 + n as u8) as char);
            assert(r@ =~= seq![Self::digit(n as nat)]);
            r
        } else {
            let mut r: String = Self::to_decimal(n / 10);
            r.push((48u8 + (n % 10) as u8) as char);
            r
        }
    }

    /// The number that the text denotes.
    pub fn parse(s: &[char], max: u64) -> (r: Option<u64>)
        ensures
            match r {
                Some(n) => Self::number(s@, max as nat) == Some(n as nat),
                None => Self::number(s@, max as nat) is None,
            },
    {
        let mut start: usize = 0;
        if s.len() > 0 && s[0] == '+' {
            start = 1;
        }
        let digits: &[char] = slice_subrange(s, start, s.len());
        assert(digits@ =~= Self::without_plus(s@));
        if digits.len() == 0 {
            return None;
        }
        let mut n: u64 = 0;
        let mut i: usize = 0;
        assert(digits@.take(0) =~= Seq::<char>::empty());
        while i < digits.len()
            invariant
                i <= digits@.len(),
                digits@ == Self::without_plus(s@),
                forall|j: int| 0 <= j < i ==> Self::is_digit(#[trigger] digits@[j]),
                n == Self::value(digits@.take(i as int)),
                n <= max,
            decreases digits@.len() - i,
        {
            let c: char = digits[i];
            if c < '0' || c > '9' {
                assert(!Self::is_digit(digits@[i as int]));
                return None;
            }
            let d: u64 = c as u64 - 48;
            let wide: u128 = 10 * n as u128 + d as u128;
            assert(digits@.take(i + 1).drop_last() =~= digits@.take(i as int));
            assert(wide == Self::value(digits@.take(i + 1)));
            if wide > max as u128 {
                proof {
                    if Self::all_digits(digits@) {
                        lemma_value_grows(digits@, i + 1);
                    }
                }
                return None;
            }
            n = wide as u64;
            i = i + 1;
        }
        assert(digits@.take(i as int) =~= digits@);
        Some(n)
    }
}

/// Lines are found again by their ends.
pub proof fn law_lines_read_back(lines: Seq<Seq<char>>)
    requires
        forall|i: int| 0 <= i < lines.len() ==> Text::is_line(#[trigger] lines[i]),
    ensures
        Text::lines(Text::ended(lines)) == lines,
    decreases lines.len(),
{
    reveal_strlit("\n");
    if lines.len() > 0 {
        let rest = lines.skip(1);
        let text = Text::ended(lines);
        let first = lines[0];
        let at = first.len() as int;
        assert(Text::is_line(first));
        assert forall|i: int| 0 <= i < rest.len() implies Text::is_line(#[trigger] rest[i]) by {
            assert(Text::is_line(lines[i + 1]));
        }
        law_lines_read_back(rest);
        assert(text[at] == '\n');
        assert forall|i: int| 0 <= i < at implies text[i] != '\n' by {
            assert(text[i] == first[i]);
            assert(first.contains(first[i]));
        }
        lemma_position_found(text, '\n', at);
        assert(text.take(at) =~= first);
        assert(text.skip(at + 1) =~= Text::ended(rest));
        assert(Text::lines(text) =~= lines);
    } else {
        assert(Text::lines(Text::ended(lines)) =~= lines);
    }
}

/// A word has nothing to trim.
pub proof fn lemma_word_trimmed(s: Seq<char>)
    requires
        Text::is_word(s),
    ensures
        Text::trimmed(s) == s,
        Text::is_line(s),
{
    assert(!Text::is_space(s[0]));
    assert(!Text::is_space(s[s.len() - 1]));
    assert(Text::is_space('\n'));
    if s.contains('\n') {
        let i = choose|i: int| 0 <= i < s.len() && s[i] == '\n';
        assert(!Text::is_space(s[i]));
    }
}

/// Digits are a word.
pub proof fn lemma_decimal_word(n: nat)
    ensures
        Text::is_word(Text::decimal(n)),
{
    lemma_decimal(n);
    let s = Text::decimal(n);
    assert forall|i: int| 0 <= i < s.len() implies !Text::is_space(#[trigger] s[i]) by {
        assert(Text::is_digit(s[i]));
    }
}

/// Fields that hold no separator are found again in their row.
pub proof fn law_fields_read_back(fields: Seq<Seq<char>>, by: char)
    requires
        fields.len() > 0,
        forall|i: int, j: int|
            0 <= i < fields.len() && 0 <= j < fields[i].len() ==> fields[i][j] != by,
    ensures
        Text::pieces(Text::separated(fields, seq![by]), by) == fields,
    decreases fields.len(),
{
    let row = Text::separated(fields, seq![by]);
    let first = fields[0];
    if fields.len() == 1 {
        lemma_position_found(row, by, row.len() as int);
        assert(Text::pieces(row, by) =~= fields);
    } else {
        let rest = fields.skip(1);
        assert forall|i: int, j: int|
            0 <= i < rest.len() && 0 <= j < rest[i].len() implies rest[i][j] != by by {
            assert(rest[i] == fields[i + 1]);
            assert(fields[i + 1][j] != by);
        }
        law_fields_read_back(rest, by);
        let at = first.len() as int;
        assert(row[at] == by);
        assert forall|i: int| 0 <= i < at implies row[i] != by by {
            assert(row[i] == fields[0][i]);
        }
        lemma_position_found(row, by, at);
        assert(row.take(at) =~= first);
        assert(row.skip(at + 1) =~= Text::separated(rest, seq![by]));
        assert(Text::pieces(row, by) =~= fields);
    }
}

/// The digits of a number denote it.
pub proof fn lemma_decimal(n: nat)
    ensures
        Text::value(Text::decimal(n)) == n,
        Text::all_digits(Text::decimal(n)),
        Text::decimal(n).len() > 0,
    decreases n,
{
    if n < 10 {
        assert(seq![Text::digit(n)].drop_last() =~= Seq::<char>::empty());
        assert(Text::value(Seq::<char>::empty()) == 0);
    } else {
        lemma_decimal(n / 10);
        let rest = Text::decimal(n / 10);
        let last = Text::digit(n % 10);
        assert(rest.push(last).drop_last() =~= rest);
        assert forall|i: int| 0 <= i < rest.push(last).len() implies Text::is_digit(
            #[trigger] rest.push(last)[i],
        ) by {
            if i < rest.len() {
                assert(Text::is_digit(rest[i]));
            }
        }
    }
}

/// Reading the digits of a number gives it back, if it is not too large.
pub proof fn law_decimal_read_back(n: nat, max: nat)
    ensures
        Text::number(Text::decimal(n), max) == (if n <= max {
            Some(n)
        } else {
            None
        }),
{
    lemma_decimal(n);
    assert(Text::is_digit(Text::decimal(n)[0]));
}

/// More digits do not denote less.
proof fn lemma_value_grows(s: Seq<char>, n: int)
    requires
        0 <= n <= s.len(),
        Text::all_digits(s),
    ensures
        Text::value(s.take(n)) <= Text::value(s),
    decreases s.len(),
{
    if n < s.len() {
        let shorter = s.drop_last();
        assert(shorter.take(n) =~= s.take(n));
        assert forall|i: int| 0 <= i < shorter.len() implies Text::is_digit(
            #[trigger] shorter[i],
        ) by {
            assert(Text::is_digit(s[i]));
        }
        lemma_value_grows(shorter, n);
        assert(Text::is_digit(s[s.len() - 1]));
    } else {
        assert(s.take(n) =~= s);
    }
}

} // verus!
