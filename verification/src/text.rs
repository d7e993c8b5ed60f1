//! Splitting text on a separator character, and the laws that tie a split to
//! the text it came from.
use vstd::prelude::*;

verus! {

/// The views of a sequence of strings, one per string and in the same order.
pub open spec fn texts(strings: Seq<String>) -> Seq<Seq<char>> {
    Seq::new(strings.len(), |i: int| strings[i]@)
}

/// The tokens of `s` between occurrences of `sep`.
///
/// Every occurrence of `sep` ends one token and starts the next, so two
/// separators in a row enclose an empty token, a leading or trailing separator
/// gives an empty first or last token, and the empty text is one empty token.
pub open spec fn split_on(s: Seq<char>, sep: char) -> Seq<Seq<char>>
    decreases s.len(),
{
    if s.len() == 0 {
        seq![Seq::<char>::empty()]
    } else {
        let before = split_on(s.drop_last(), sep);
        if s.last() == sep {
            before.push(Seq::<char>::empty())
        } else {
            before.drop_last().push(before.last().push(s.last()))
        }
    }
}

/// The tokens written one after another with `sep` between neighbours.
pub open spec fn join_with(tokens: Seq<Seq<char>>, sep: char) -> Seq<char>
    decreases tokens.len(),
{
    if tokens.len() == 0 {
        Seq::<char>::empty()
    } else if tokens.len() == 1 {
        tokens[0]
    } else {
        join_with(tokens.drop_last(), sep).push(sep) + tokens.last()
    }
}

/// No token holds the separator.
pub open spec fn free_of(tokens: Seq<Seq<char>>, sep: char) -> bool {
    forall|i: int, j: int|
        0 <= i < tokens.len() && 0 <= j < tokens[i].len() ==> #[trigger] tokens[i][j] != sep
}

/// How often `sep` occurs in `s`.
pub open spec fn occurrences(s: Seq<char>, sep: char) -> nat
    decreases s.len(),
{
    if s.len() == 0 {
        0
    } else {
        occurrences(s.drop_last(), sep) + if s.last() == sep {
            1nat
        } else {
            0nat
        }
    }
}

/// A split has one token more than the text has separators; in particular it
/// is never empty.
pub proof fn lemma_split_len(s: Seq<char>, sep: char)
    ensures
        split_on(s, sep).len() == occurrences(s, sep) + 1,
    decreases s.len(),
{
    if s.len() > 0 {
        lemma_split_len(s.drop_last(), sep);
    }
}

/// No token of a split holds the separator.
pub proof fn lemma_split_free_of(s: Seq<char>, sep: char)
    ensures
        free_of(split_on(s, sep), sep),
    decreases s.len(),
{
    if s.len() > 0 {
        lemma_split_len(s.drop_last(), sep);
        lemma_split_free_of(s.drop_last(), sep);
        let before = split_on(s.drop_last(), sep);
        let tokens = split_on(s, sep);
        assert forall|i: int, j: int|
            0 <= i < tokens.len() && 0 <= j < tokens[i].len() implies #[trigger] tokens[i][j]
            != sep by {
            if i < before.len() - 1 {
                assert(tokens[i] == before[i]);
                assert(before[i][j] != sep);
            } else if s.last() != sep {
                if j < before.last().len() {
                    assert(before[before.len() - 1][j] != sep);
                }
            } else if i == before.len() - 1 {
                assert(tokens[i] == before[i]);
                assert(before[i][j] != sep);
            }
        }
    }
}

/// Joining the tokens of a split with the separator gives the text back.
pub proof fn lemma_join_split(s: Seq<char>, sep: char)
    ensures
        join_with(split_on(s, sep), sep) == s,
    decreases s.len(),
{
    if s.len() > 0 {
        let rest = s.drop_last();
        let before = split_on(rest, sep);
        lemma_split_len(rest, sep);
        lemma_join_split(rest, sep);
        if s.last() == sep {
            let tokens = before.push(Seq::<char>::empty());
            assert(tokens.drop_last() == before);
            assert(join_with(tokens, sep) == join_with(before, sep).push(sep) + tokens.last());
            assert(rest.push(sep) + Seq::<char>::empty() == s);
        } else {
            lemma_join_extend_last(before, sep, s.last());
            assert(rest.push(s.last()) == s);
        }
    }
}

/// Appending a character to the last token appends it to the joined text.
pub proof fn lemma_join_extend_last(tokens: Seq<Seq<char>>, sep: char, c: char)
    requires
        tokens.len() > 0,
    ensures
        join_with(tokens.drop_last().push(tokens.last().push(c)), sep) == join_with(
            tokens,
            sep,
        ).push(c),
{
    let extended = tokens.drop_last().push(tokens.last().push(c));
    if tokens.len() == 1 {
        assert(extended[0] == tokens[0].push(c));
    } else {
        assert(extended.drop_last() == tokens.drop_last());
        let head = join_with(tokens.drop_last(), sep).push(sep);
        assert(head + tokens.last().push(c) == (head + tokens.last()).push(c));
    }
}

/// Splitting is the only way to cut a text into separator-free tokens: any
/// non-empty list of tokens that are free of the separator and join to `s` is
/// the split of `s`.
pub proof fn lemma_split_unique(tokens: Seq<Seq<char>>, s: Seq<char>, sep: char)
    requires
        tokens.len() > 0,
        free_of(tokens, sep),
        join_with(tokens, sep) == s,
    ensures
        tokens == split_on(s, sep),
    decreases s.len(),
{
    if s.len() == 0 {
        if tokens.len() > 1 {
            let joined = join_with(tokens.drop_last(), sep).push(sep) + tokens.last();
            assert(joined.len() > 0);
        }
        assert(tokens[0] == Seq::<char>::empty());
        assert(tokens == seq![Seq::<char>::empty()]);
    } else {
        let last = tokens.last();
        if last.len() == 0 {
            // The text ends where a token starts, so it ends with a separator.
            assert(tokens.len() > 1);
            let front = tokens.drop_last();
            assert(join_with(front, sep).push(sep) + last == join_with(front, sep).push(sep));
            assert(s.last() == sep);
            assert(s.drop_last() == join_with(front, sep));
            assert(free_of(front, sep)) by {
                assert forall|i: int, j: int|
                    0 <= i < front.len() && 0 <= j < front[i].len() implies #[trigger] front[i][j]
                    != sep by {
                    assert(tokens[i][j] != sep);
                }
            }
            lemma_split_unique(front, s.drop_last(), sep);
            assert(last == Seq::<char>::empty());
            assert(tokens == front.push(last));
        } else {
            let c = last.last();
            let shorter = tokens.drop_last().push(last.drop_last());
            assert(shorter.drop_last() == tokens.drop_last());
            assert(shorter.last().push(c) == last);
            assert(shorter.drop_last().push(shorter.last().push(c)) == tokens);
            lemma_join_extend_last(shorter, sep, c);
            assert(s == join_with(shorter, sep).push(c));
            assert(s.drop_last() == join_with(shorter, sep));
            assert(tokens[tokens.len() - 1][last.len() - 1] != sep);
            assert(s.last() == c);
            assert(free_of(shorter, sep)) by {
                assert forall|i: int, j: int|
                    0 <= i < shorter.len() && 0 <= j < shorter[i].len() implies
                    #[trigger] shorter[i][j] != sep by {
                    assert(tokens[i][j] != sep);
                }
            }
            lemma_split_unique(shorter, s.drop_last(), sep);
        }
    }
}

/// A text without the separator is its own single token.
pub proof fn lemma_split_without_sep(s: Seq<char>, sep: char)
    requires
        !s.contains(sep),
    ensures
        split_on(s, sep) == seq![s],
    decreases s.len(),
{
    if s.len() == 0 {
        assert(s == Seq::<char>::empty());
    } else {
        let rest = s.drop_last();
        assert(!rest.contains(sep)) by {
            if rest.contains(sep) {
                let i = choose|i: int| 0 <= i < rest.len() && rest[i] == sep;
                assert(s[i] == sep);
            }
        }
        assert(s[s.len() - 1] != sep);
        lemma_split_without_sep(rest, sep);
        assert(rest.push(s.last()) == s);
        assert(seq![rest].drop_last().push(s) == seq![s]);
    }
}

/// The split of two texts with a separator between them is the split of the
/// first followed by the split of the second.
pub proof fn lemma_split_concat(a: Seq<char>, b: Seq<char>, sep: char)
    ensures
        split_on(a.push(sep) + b, sep) == split_on(a, sep) + split_on(b, sep),
    decreases b.len(),
{
    let whole = a.push(sep) + b;
    if b.len() == 0 {
        assert(whole == a.push(sep));
        assert(whole.drop_last() == a);
        assert(split_on(a, sep).push(Seq::<char>::empty()) == split_on(a, sep) + seq![
            Seq::<char>::empty(),
        ]);
    } else {
        let shorter = b.drop_last();
        lemma_split_concat(a, shorter, sep);
        lemma_split_len(shorter, sep);
        assert(whole.drop_last() == a.push(sep) + shorter);
        assert(whole.last() == b.last());
        let left = split_on(a, sep);
        let right = split_on(shorter, sep);
        if b.last() == sep {
            assert((left + right).push(Seq::<char>::empty()) == left + right.push(
                Seq::<char>::empty(),
            ));
        } else {
            assert((left + right).last() == right.last());
            assert((left + right).drop_last() == left + right.drop_last());
            assert((left + right.drop_last()).push(right.last().push(b.last())) == left
                + right.drop_last().push(right.last().push(b.last())));
        }
    }
}

/// Appending separator-free text to a text appends it to the last token.
pub proof fn lemma_split_append(a: Seq<char>, b: Seq<char>, sep: char)
    requires
        !b.contains(sep),
    ensures
        split_on(a + b, sep) == split_on(a, sep).drop_last().push(split_on(a, sep).last() + b),
    decreases b.len(),
{
    let tokens = split_on(a, sep);
    lemma_split_len(a, sep);
    if b.len() == 0 {
        assert(a + b == a);
        assert(tokens.last() + b == tokens.last());
        assert(tokens.drop_last().push(tokens.last()) == tokens);
    } else {
        let shorter = b.drop_last();
        assert(!shorter.contains(sep)) by {
            if shorter.contains(sep) {
                let i = choose|i: int| 0 <= i < shorter.len() && shorter[i] == sep;
                assert(b[i] == sep);
            }
        }
        assert(b[b.len() - 1] != sep);
        lemma_split_append(a, shorter, sep);
        assert((a + b).drop_last() == a + shorter);
        assert((a + b).last() == b.last());
        let grown = tokens.drop_last().push(tokens.last() + shorter);
        assert(grown.drop_last() == tokens.drop_last());
        assert((tokens.last() + shorter).push(b.last()) == tokens.last() + b);
    }
}

/// The characters of `s` as a vector.
pub fn chars_of(s: &str) -> (chars: Vec<char>)
    ensures
        chars@ == s@,
{
    let mut chars: Vec<char> = Vec::new();
    for c in it: s.chars()
        invariant
            chars@ == it.seq().take(it.index() as int),
            it.seq() == s@,
    {
        chars.push(c);
    }
    chars
}

/// Splits `value` at every occurrence of `sep`.
///
/// Empty tokens are kept: `"a  b"` split on a space is `"a"`, `""`, `"b"`.
pub fn split(value: &str, sep: char) -> (tokens: Vec<String>)
    ensures
        texts(tokens@) == split_on(value@, sep),
        tokens@.len() >= 1,
{
    let chars = chars_of(value);
    let n = chars.len();
    let mut tokens: Vec<String> = Vec::new();
    let mut start: usize = 0;
    let mut i: usize = 0;
    proof {
        assert(value@.take(0) == Seq::<char>::empty());
        assert(value@.subrange(0, 0) == Seq::<char>::empty());
        assert(texts(tokens@).push(value@.subrange(0, 0)) == seq![Seq::<char>::empty()]);
    }
    while i < n
        invariant
            chars@ == value@,
            n == chars.len(),
            start <= i <= n,
            texts(tokens@).push(value@.subrange(start as int, i as int)) == split_on(
                value@.take(i as int),
                sep,
            ),
        decreases n - i,
    {
        let ghost prefix = value@.take(i as int);
        let ghost longer = value@.take(i + 1);
        let ghost current = value@.subrange(start as int, i as int);
        proof {
            assert(longer.drop_last() == prefix);
            assert(longer.last() == value@[i as int]);
            assert(texts(tokens@).push(current).drop_last() == texts(tokens@));
        }
        if chars[i] == sep {
            let token = value.substring_char(start, i);
            let ghost before = tokens@;
            tokens.push(String::from_str(token));
            start = i + 1;
            proof {
                assert(texts(tokens@) == texts(before).push(current));
                assert(value@.subrange(start as int, i + 1) == Seq::<char>::empty());
            }
        } else {
            proof {
                assert(value@.subrange(start as int, i + 1) == current.push(value@[i as int]));
            }
        }
        i = i + 1;
    }
    let token = value.substring_char(start, n);
    let ghost before = tokens@;
    tokens.push(String::from_str(token));
    proof {
        assert(value@.take(n as int) == value@);
        assert(texts(tokens@) == texts(before).push(value@.subrange(start as int, n as int)));
    }
    tokens
}

} // verus!
