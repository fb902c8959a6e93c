//! Taking texts apart.

use vstd::prelude::*;

verus! {

/// The pieces of `s` between the separators: always one more than there are separators.
pub open spec fn split(s: Seq<char>, sep: char) -> Seq<Seq<char>>
    decreases s.len(),
{
    if s.len() == 0 {
        seq![s]
    } else {
        let pieces = split(s.drop_last(), sep);
        if s.last() == sep {
            pieces.push(Seq::empty())
        } else {
            pieces.drop_last().push(pieces.last().push(s.last()))
        }
    }
}

/// The pieces one after the other, with a separator between each two.
pub open spec fn join(pieces: Seq<Seq<char>>, sep: char) -> Seq<char>
    decreases pieces.len(),
{
    if pieces.len() == 0 {
        Seq::empty()
    } else if pieces.len() == 1 {
        pieces[0]
    } else {
        join(pieces.drop_last(), sep).push(sep) + pieces.last()
    }
}

/// `s` without the spaces in front of it and behind it.
pub open spec fn trimmed(s: Seq<char>) -> Seq<char>
    decreases s.len(),
{
    if s.len() == 0 {
        s
    } else if s[0] == ' ' {
        trimmed(s.skip(1))
    } else if s.last() == ' ' {
        trimmed(s.drop_last())
    } else {
        s
    }
}

/// `s` is made of spaces, or empty.
pub open spec fn blank(s: Seq<char>) -> bool {
    forall|i: int| 0 <= i < s.len() ==> #[trigger] s[i] == ' '
}

/// `s` neither begins nor ends with a space.
pub open spec fn tight(s: Seq<char>) -> bool {
    s.len() > 0 ==> s[0] != ' ' && s.last() != ' '
}

/// What a list of texts says.
pub open spec fn views(parts: Seq<&str>) -> Seq<Seq<char>> {
    parts.map_values(|part: &str| part@)
}

/// The characters of `s`.
pub fn chars_of(s: &str) -> (chars: Vec<char>)
    ensures
        chars@ == s@,
{
    broadcast use vstd::string::axiom_spec_iter;
    let mut chars: Vec<char> = Vec::new();
    for c in it: s.chars()
        invariant
            chars@ == it.seq().take(it.index()),
            it.seq() == s@,
    {
        chars.push(c);
    }
    chars
}

/// Splits `s` at every separator.
pub fn split_text<'a>(s: &'a str, sep: char) -> (parts: Vec<&'a str>)
    ensures
        views(parts@) == split(s@, sep),
        parts@.len() == split(s@, sep).len(),
        forall|i: int| 0 <= i < parts@.len() ==> (#[trigger] parts@[i])@ == split(s@, sep)[i],
{
    let chars = chars_of(s);
    let len: usize = chars.len();
    let mut parts: Vec<&'a str> = Vec::new();
    let mut start: usize = 0;
    let mut i: usize = 0;
    assert(views(parts@).push(s@.subrange(0, 0)) == split(s@.take(0), sep));
    while i < len
        invariant
            len == chars.len(),
            chars@ == s@,
            start <= i <= len,
            views(parts@).push(s@.subrange(start as int, i as int)) == split(
                s@.take(i as int),
                sep,
            ),
        decreases len - i,
    {
        let ghost done = views(parts@);
        let ghost current = s@.subrange(start as int, i as int);
        assert(s@.take(i + 1).drop_last() == s@.take(i as int));
        assert(done.push(current).drop_last() == done);
        if chars[i] == sep {
            let part = s.substring_char(start, i);
            parts.push(part);
            assert(views(parts@) == done.push(current));
            start = i + 1;
            assert(s@.subrange(start as int, i + 1) == Seq::<char>::empty());
        } else {
            assert(s@.subrange(start as int, i + 1) == current.push(s@[i as int]));
        }
        i = i + 1;
    }
    let ghost done = views(parts@);
    let part = s.substring_char(start, len);
    parts.push(part);
    assert(views(parts@) == done.push(part@));
    assert(s@.take(len as int) == s@);
    assert(forall|k: int| 0 <= k < parts@.len() ==> views(parts@)[k] == (#[trigger] parts@[k])@);
    parts
}

/// The part of `s` without the spaces in front of it and behind it.
pub fn trim_spaces<'a>(s: &'a str) -> (t: &'a str)
    ensures
        t@ == trimmed(s@),
{
    let chars = chars_of(s);
    let mut start: usize = 0;
    let mut end: usize = chars.len();
    while start < end && chars[start] == ' '
        invariant
            start <= end == chars.len(),
            blank(chars@.take(start as int)),
        ensures
            start <= end == chars.len(),
            blank(chars@.take(start as int)),
            start < end ==> chars@[start as int] != ' ',
        decreases end - start,
    {
        start = start + 1;
    }
    while start < end && chars[end - 1] == ' '
        invariant
            start <= end <= chars.len(),
            start < chars.len() ==> start < end && chars@[start as int] != ' ',
            blank(chars@.skip(end as int)),
        ensures
            start <= end <= chars.len(),
            start < end ==> chars@[start as int] != ' ' && chars@[end - 1] != ' ',
            blank(chars@.skip(end as int)),
        decreases end - start,
    {
        end = end - 1;
        assert(chars@.skip(end as int) =~= seq![' '] + chars@.skip(end + 1));
    }
    proof {
        let front = s@.take(start as int);
        let middle = s@.subrange(start as int, end as int);
        let back = s@.skip(end as int);
        law_spaces_trimmed(front, middle, back);
        assert(front + middle + back == s@);
    }
    s.substring_char(start, end)
}

/// Whatever spaces are put in front of a text and behind it, trimming takes them off again,
/// and nothing else.
pub proof fn law_spaces_trimmed(front: Seq<char>, middle: Seq<char>, back: Seq<char>)
    requires
        blank(front),
        tight(middle),
        blank(back),
    ensures
        trimmed(front + middle + back) == middle,
    decreases front.len() + back.len(),
{
    let s = front + middle + back;
    if front.len() > 0 {
        law_spaces_trimmed(front.skip(1), middle, back);
        assert(s[0] == front[0]);
        assert(s.skip(1) == front.skip(1) + middle + back);
    } else if back.len() > 0 {
        if middle.len() == 0 {
            law_spaces_trimmed(front, middle, back.skip(1));
            assert(s[0] == back[0]);
            assert(s.skip(1) == front + middle + back.skip(1));
        } else {
            law_spaces_trimmed(front, middle, back.drop_last());
            assert(s[0] == middle[0]);
            assert(s.last() == back[back.len() - 1]);
            assert(s.drop_last() == front + middle + back.drop_last());
        }
    } else {
        assert(s == middle);
    }
}

/// Splitting a text that ends in a separator and a piece without one gives that piece last.
pub proof fn lemma_split_last(front: Seq<char>, piece: Seq<char>, sep: char)
    requires
        !piece.contains(sep),
    ensures
        split(front.push(sep) + piece, sep) == split(front, sep).push(piece),
    decreases piece.len(),
{
    let s = front.push(sep) + piece;
    if piece.len() == 0 {
        assert(s.drop_last() == front);
        assert(piece == Seq::<char>::empty());
    } else {
        let shorter = piece.drop_last();
        assert forall|i: int| 0 <= i < shorter.len() implies shorter[i] != sep by {
            assert(piece[i] != sep);
        }
        lemma_split_last(front, shorter, sep);
        assert(s.drop_last() == front.push(sep) + shorter);
        assert(s.last() == piece.last());
        assert(split(front, sep).push(shorter).drop_last() == split(front, sep));
        assert(shorter.push(piece.last()) == piece);
    }
}

/// A text without a separator is its own only piece.
pub proof fn lemma_split_single(s: Seq<char>, sep: char)
    requires
        !s.contains(sep),
    ensures
        split(s, sep) == seq![s],
    decreases s.len(),
{
    if s.len() > 0 {
        let shorter = s.drop_last();
        assert forall|i: int| 0 <= i < shorter.len() implies shorter[i] != sep by {
            assert(s[i] != sep);
        }
        lemma_split_single(shorter, sep);
        assert(shorter.push(s.last()) == s);
        assert(seq![shorter].drop_last().push(s) == seq![s]);
    }
}

/// Splitting takes a text apart without loss: there is at least one piece, no piece holds a
/// separator, and the pieces with separators between them are the text again.
pub proof fn law_split_then_join(s: Seq<char>, sep: char)
    ensures
        split(s, sep).len() >= 1,
        forall|i: int|
            0 <= i < split(s, sep).len() ==> !(#[trigger] split(s, sep)[i]).contains(sep),
        join(split(s, sep), sep) == s,
    decreases s.len(),
{
    if s.len() > 0 {
        let front = split(s.drop_last(), sep);
        let pieces = split(s, sep);
        law_split_then_join(s.drop_last(), sep);
        if s.last() == sep {
            assert(pieces.drop_last() == front);
            assert(join(pieces, sep) == s.drop_last().push(sep));
        } else {
            let grown = front.last().push(s.last());
            assert(!front[front.len() - 1].contains(sep));
            assert forall|i: int| 0 <= i < grown.len() implies grown[i] != sep by {
                if i < grown.len() - 1 {
                    assert(front.last()[i] != sep);
                }
            }
            assert(pieces.drop_last() == front.drop_last());
            assert forall|i: int| 0 <= i < pieces.len() implies !(
            #[trigger] pieces[i]).contains(sep) by {
                if i < pieces.len() - 1 {
                    assert(pieces[i] == front[i]);
                }
            }
            assert(join(pieces, sep) == join(front, sep).push(s.last()));
        }
        assert(s == s.drop_last().push(s.last()));
    }
}

/// Splitting undoes joining: pieces that hold no separator come back as they were.
pub proof fn law_join_then_split(pieces: Seq<Seq<char>>, sep: char)
    requires
        pieces.len() >= 1,
        forall|i: int| 0 <= i < pieces.len() ==> !(#[trigger] pieces[i]).contains(sep),
    ensures
        split(join(pieces, sep), sep) == pieces,
    decreases pieces.len(),
{
    assert(!pieces.last().contains(sep)) by {
        assert(!pieces[pieces.len() - 1].contains(sep));
    }
    if pieces.len() == 1 {
        lemma_split_single(pieces[0], sep);
    } else {
        let front = pieces.drop_last();
        assert forall|i: int| 0 <= i < front.len() implies !(#[trigger] front[i]).contains(sep) by {
            assert(front[i] == pieces[i]);
        }
        law_join_then_split(front, sep);
        lemma_split_last(join(front, sep), pieces.last(), sep);
        assert(front.push(pieces.last()) == pieces);
    }
}

/// Splitting, cut by cut: a text without a separator is one piece, and a text around a separator
/// has the pieces of what is before it, then the pieces of what is behind it.
pub proof fn law_split_at_separators(a: Seq<char>, b: Seq<char>, sep: char)
    ensures
        !a.contains(sep) ==> split(a, sep) == seq![a],
        split(a + seq![sep] + b, sep) == split(a, sep) + split(b, sep),
    decreases b.len(),
{
    if !a.contains(sep) {
        lemma_split_single(a, sep);
    }
    let s = a + seq![sep] + b;
    if b.len() == 0 {
        assert(s.drop_last() == a);
        assert(b == Seq::<char>::empty());
        assert(split(a, sep).push(Seq::empty()) == split(a, sep) + seq![b]);
    } else {
        let shorter = b.drop_last();
        law_split_at_separators(a, shorter, sep);
        law_split_then_join(shorter, sep);
        assert(s.drop_last() == a + seq![sep] + shorter);
        assert(s.last() == b.last());
        let (x, y) = (split(a, sep), split(shorter, sep));
        assert((x + y).drop_last() == x + y.drop_last());
        assert((x + y).last() == y.last());
        if b.last() == sep {
            assert((x + y).push(Seq::empty()) == x + y.push(Seq::empty()));
        } else {
            let grown = y.last().push(b.last());
            assert((x + y.drop_last()).push(grown) == x + y.drop_last().push(grown));
        }
    }
}

/// There is one piece more than there are separators.
pub proof fn law_split_counts(s: Seq<char>, sep: char)
    ensures
        split(s, sep).len() == 1 + s.filter(|c: char| c == sep).len(),
    decreases s.len(),
{
    reveal(Seq::filter);
    if s.len() > 0 {
        law_split_counts(s.drop_last(), sep);
        law_split_then_join(s.drop_last(), sep);
    }
}

/// Joining, cut by cut: a piece alone is itself, and two lists of pieces are joined by one
/// separator between what each of them gives.
pub proof fn law_join_concatenates(
    piece: Seq<char>,
    a: Seq<Seq<char>>,
    b: Seq<Seq<char>>,
    sep: char,
)
    requires
        a.len() >= 1,
        b.len() >= 1,
    ensures
        join(seq![piece], sep) == piece,
        join(a + b, sep) == join(a, sep) + seq![sep] + join(b, sep),
    decreases b.len(),
{
    assert((a + b).drop_last() == a + b.drop_last());
    assert((a + b).last() == b.last());
    if b.len() == 1 {
        assert(a + b.drop_last() == a);
        assert(join(a, sep).push(sep) == join(a, sep) + seq![sep]);
    } else {
        law_join_concatenates(piece, a, b.drop_last(), sep);
        assert((join(a, sep) + seq![sep] + join(b.drop_last(), sep)).push(sep) + b.last() == join(
            a,
            sep,
        ) + seq![sep] + (join(b.drop_last(), sep).push(sep) + b.last()));
    }
}

/// What trimming takes off are spaces, in front and behind, and it takes off all of them.
pub proof fn law_trimmed_of_spaces_only(s: Seq<char>)
    ensures
        trimmed(s).len() > 0 ==> trimmed(s)[0] != ' ' && trimmed(s).last() != ' ',
        exists|front: Seq<char>, back: Seq<char>|
            {
                &&& #[trigger] (front + trimmed(s) + back) == s
                &&& forall|i: int| 0 <= i < front.len() ==> #[trigger] front[i] == ' '
                &&& forall|i: int| 0 <= i < back.len() ==> #[trigger] back[i] == ' '
            },
    decreases s.len(),
{
    let none = Seq::<char>::empty();
    if s.len() == 0 || (s[0] != ' ' && s.last() != ' ') {
        assert(none + trimmed(s) + none == s);
    } else {
        let rest = if s[0] == ' ' {
            s.skip(1)
        } else {
            s.drop_last()
        };
        law_trimmed_of_spaces_only(rest);
        let (front, back) = choose|front: Seq<char>, back: Seq<char>|
            {
                &&& #[trigger] (front + trimmed(rest) + back) == rest
                &&& forall|i: int| 0 <= i < front.len() ==> #[trigger] front[i] == ' '
                &&& forall|i: int| 0 <= i < back.len() ==> #[trigger] back[i] == ' '
            };
        if s[0] == ' ' {
            let longer = seq![' '] + front;
            assert(s == seq![' '] + rest);
            assert(longer + trimmed(rest) + back == seq![' '] + (front + trimmed(rest) + back));
            assert(longer + trimmed(s) + back == s);
        } else {
            let longer = back.push(' ');
            assert(s == rest.push(' '));
            assert(front + trimmed(rest) + longer == (front + trimmed(rest) + back).push(' '));
            assert(front + trimmed(s) + longer == s);
        }
    }
}

/// Spaces put around a text that has none at its ends do not show once it is trimmed.
pub proof fn law_trimming_undoes_padding(front: Seq<char>, middle: Seq<char>, back: Seq<char>)
    requires
        forall|i: int| 0 <= i < front.len() ==> #[trigger] front[i] == ' ',
        forall|i: int| 0 <= i < back.len() ==> #[trigger] back[i] == ' ',
        middle.len() > 0 ==> middle[0] != ' ' && middle.last() != ' ',
    ensures
        trimmed(front + middle + back) == middle,
{
    law_spaces_trimmed(front, middle, back);
}

} // verus!
