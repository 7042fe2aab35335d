//! Text as a list of pieces with a separator character between them.

use vstd::prelude::*;

verus! {

/// Whether the character `c` does not occur in `text`.
pub open spec fn free_of(text: Seq<char>, c: char) -> bool {
    forall|i: int| 0 <= i < text.len() ==> #[trigger] text[i] != c
}

/// The pieces of `text` between the occurrences of `sep`, in order. There is always
/// at least one piece, and a piece may be empty: an empty text has one empty piece.
pub open spec fn split(text: Seq<char>, sep: char) -> Seq<Seq<char>>
    decreases text.len(),
{
    if text.len() == 0 {
        seq![Seq::<char>::empty()]
    } else {
        let init = split(text.drop_last(), sep);
        if text.last() == sep {
            init.push(Seq::<char>::empty())
        } else {
            init.drop_last().push(init.last().push(text.last()))
        }
    }
}

/// The pieces written one after the other with `sep` between neighbours.
pub open spec fn join(pieces: Seq<Seq<char>>, sep: char) -> Seq<char>
    decreases pieces.len(),
{
    if pieces.len() == 0 {
        Seq::<char>::empty()
    } else if pieces.len() == 1 {
        pieces[0]
    } else {
        join(pieces.drop_last(), sep).push(sep) + pieces.last()
    }
}

/// The texts that a list of character vectors holds.
pub open spec fn texts(pieces: Seq<Vec<char>>) -> Seq<Seq<char>> {
    Seq::new(pieces.len(), |i: int| pieces[i]@)
}

/// A text always splits into at least one piece.
pub proof fn lemma_split_len(text: Seq<char>, sep: char)
    ensures
        split(text, sep).len() >= 1,
    decreases text.len(),
{
    if text.len() > 0 {
        lemma_split_len(text.drop_last(), sep);
    }
}

/// Characters other than the separator, written after a text, lengthen its last piece.
pub proof fn lemma_split_append(text: Seq<char>, tail: Seq<char>, sep: char)
    requires
        free_of(tail, sep),
    ensures
        split(text, sep).len() >= 1,
        split(text + tail, sep) == split(text, sep).drop_last().push(
            split(text, sep).last() + tail,
        ),
    decreases tail.len(),
{
    lemma_split_len(text, sep);
    let pieces = split(text, sep);
    if tail.len() == 0 {
        assert(text + tail =~= text);
        assert(pieces.last() + tail =~= pieces.last());
        assert(pieces.drop_last().push(pieces.last()) =~= pieces);
    } else {
        let whole = text + tail;
        assert(whole.drop_last() =~= text + tail.drop_last());
        assert(whole.last() == tail.last());
        assert(tail[tail.len() - 1] != sep);
        assert forall|i: int| 0 <= i < tail.drop_last().len() implies #[trigger] tail.drop_last()[i]
            != sep by {
            assert(tail.drop_last()[i] == tail[i]);
        }
        lemma_split_append(text, tail.drop_last(), sep);
        let init = split(whole.drop_last(), sep);
        assert(init.last().push(tail.last()) =~= pieces.last() + tail);
        assert(init.drop_last() =~= pieces.drop_last());
    }
}

/// A text without the separator is its own single piece.
pub proof fn lemma_split_single(text: Seq<char>, sep: char)
    requires
        free_of(text, sep),
    ensures
        split(text, sep) == seq![text],
{
    let none = Seq::<char>::empty();
    lemma_split_append(none, text, sep);
    assert(none + text =~= text);
    assert(split(none, sep) =~= seq![none]);
    assert(split(none, sep).drop_last().push(none + text) =~= seq![text]);
}

/// Splitting undoes joining: pieces that are free of the separator come back as
/// they were, given that there is at least one.
pub proof fn lemma_split_join(pieces: Seq<Seq<char>>, sep: char)
    requires
        pieces.len() >= 1,
        forall|i: int| 0 <= i < pieces.len() ==> free_of(#[trigger] pieces[i], sep),
    ensures
        split(join(pieces, sep), sep) == pieces,
    decreases pieces.len(),
{
    if pieces.len() == 1 {
        lemma_split_single(pieces[0], sep);
        assert(seq![pieces[0]] =~= pieces);
    } else {
        let init = pieces.drop_last();
        assert forall|i: int| 0 <= i < init.len() implies free_of(#[trigger] init[i], sep) by {
            assert(init[i] == pieces[i]);
        }
        lemma_split_join(init, sep);
        let head = join(init, sep).push(sep);
        assert(head.drop_last() =~= join(init, sep));
        assert(split(head, sep) == init.push(Seq::<char>::empty()));
        assert(free_of(pieces[pieces.len() - 1], sep));
        lemma_split_append(head, pieces.last(), sep);
        assert(Seq::<char>::empty() + pieces.last() =~= pieces.last());
        assert(init.push(Seq::<char>::empty()).drop_last() =~= init);
        assert(init.push(pieces.last()) =~= pieces);
    }
}

/// Joining a first piece with at least one more writes the first piece, the
/// separator, and then the others joined.
pub proof fn lemma_join_first(first: Seq<char>, rest: Seq<Seq<char>>, sep: char)
    requires
        rest.len() >= 1,
    ensures
        join(seq![first] + rest, sep) == first.push(sep) + join(rest, sep),
    decreases rest.len(),
{
    let all = seq![first] + rest;
    assert(all.drop_last() =~= seq![first] + rest.drop_last());
    assert(all.last() == rest.last());
    if rest.len() == 1 {
        assert(all.drop_last() =~= seq![first]);
        assert(join(all.drop_last(), sep) == first);
        assert(join(rest, sep) == rest[0]);
    } else {
        lemma_join_first(first, rest.drop_last(), sep);
        assert(join(all, sep) =~= first.push(sep) + join(rest, sep));
    }
}

/// A joined text is free of a character that neither is the separator nor occurs in
/// a piece.
pub proof fn lemma_join_free_of(pieces: Seq<Seq<char>>, sep: char, c: char)
    requires
        sep != c,
        forall|i: int| 0 <= i < pieces.len() ==> free_of(#[trigger] pieces[i], c),
    ensures
        free_of(join(pieces, sep), c),
    decreases pieces.len(),
{
    if pieces.len() == 1 {
        assert(free_of(pieces[0], c));
    } else if pieces.len() > 1 {
        let init = pieces.drop_last();
        assert forall|i: int| 0 <= i < init.len() implies free_of(#[trigger] init[i], c) by {
            assert(init[i] == pieces[i]);
        }
        lemma_join_free_of(init, sep, c);
        assert(free_of(pieces[pieces.len() - 1], c));
    }
}

/// Cuts `text` at every occurrence of `sep`.
pub fn split_text(text: &Vec<char>, sep: char) -> (pieces: Vec<Vec<char>>)
    ensures
        texts(pieces@) == split(text@, sep),
        pieces@.len() >= 1,
{
    let mut pieces: Vec<Vec<char>> = Vec::new();
    let mut current: Vec<char> = Vec::new();
    let mut i: usize = 0;
    assert(text@.take(0) =~= Seq::<char>::empty());
    assert(texts(pieces@).push(current@) =~= seq![Seq::<char>::empty()]);
    while i < text.len()
        invariant
            i <= text.len(),
            texts(pieces@).push(current@) == split(text@.take(i as int), sep),
        decreases text.len() - i,
    {
        let ghost before = texts(pieces@).push(current@);
        let ghost seen = text@.take(i as int);
        let ghost next = text@.take(i + 1);
        assert(next.drop_last() =~= seen);
        assert(next.last() == text@[i as int]);
        assert(before.last() == current@);
        assert(before.drop_last() =~= texts(pieces@));
        let c = text[i];
        if c == sep {
            pieces.push(current);
            current = Vec::new();
            assert(texts(pieces@) =~= before);
        } else {
            current.push(c);
        }
        assert(texts(pieces@).push(current@) =~= split(next, sep));
        i += 1;
    }
    assert(text@.take(i as int) =~= text@);
    let ghost before = texts(pieces@).push(current@);
    pieces.push(current);
    assert(texts(pieces@) =~= before);
    pieces
}

/// Writes the characters of `piece` at the end of `out`.
pub fn append_text(out: &mut Vec<char>, piece: &Vec<char>)
    ensures
        final(out)@ == old(out)@ + piece@,
{
    let mut i: usize = 0;
    assert(piece@.take(0) =~= Seq::<char>::empty());
    assert(out@ =~= old(out)@ + piece@.take(0));
    while i < piece.len()
        invariant
            i <= piece.len(),
            out@ == old(out)@ + piece@.take(i as int),
        decreases piece.len() - i,
    {
        assert(piece@.take(i + 1) =~= piece@.take(i as int).push(piece@[i as int]));
        out.push(piece[i]);
        assert(out@ =~= old(out)@ + piece@.take(i + 1));
        i += 1;
    }
    assert(piece@.take(i as int) =~= piece@);
}

/// The characters of `text` from position `from` up to, not including, position `to`.
pub fn copy_range(text: &Vec<char>, from: usize, to: usize) -> (piece: Vec<char>)
    requires
        from <= to <= text@.len(),
    ensures
        piece@ == text@.subrange(from as int, to as int),
{
    let mut piece: Vec<char> = Vec::new();
    let mut i: usize = from;
    assert(piece@ =~= text@.subrange(from as int, i as int));
    while i < to
        invariant
            from <= i <= to <= text@.len(),
            piece@ == text@.subrange(from as int, i as int),
        decreases to - i,
    {
        piece.push(text[i]);
        assert(piece@ =~= text@.subrange(from as int, i + 1));
        i += 1;
    }
    piece
}

/// Writes the pieces one after the other with `sep` between neighbours.
pub fn join_texts(pieces: &Vec<Vec<char>>, sep: char) -> (text: Vec<char>)
    ensures
        text@ == join(texts(pieces@), sep),
{
    let mut text: Vec<char> = Vec::new();
    let mut i: usize = 0;
    assert(texts(pieces@).take(0) =~= Seq::<Seq<char>>::empty());
    while i < pieces.len()
        invariant
            i <= pieces.len(),
            text@ == join(texts(pieces@).take(i as int), sep),
        decreases pieces.len() - i,
    {
        let ghost seen = texts(pieces@).take(i as int);
        let ghost next = texts(pieces@).take(i + 1);
        assert(next.drop_last() =~= seen);
        assert(next.last() == pieces@[i as int]@);
        if i > 0 {
            text.push(sep);
        }
        append_text(&mut text, &pieces[i]);
        assert(text@ =~= join(next, sep)) by {
            if i == 0 {
                assert(seen.len() == 0);
                assert(next[0] == next.last());
            }
        }
        i += 1;
    }
    assert(texts(pieces@).take(i as int) =~= texts(pieces@));
    text
}

} // verus!
