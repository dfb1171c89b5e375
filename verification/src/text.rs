//! Character-level text operations shared by the rest of the library.
//!
//! Every string is modelled by its sequence of characters; the executable
//! helpers work on `Vec<char>` so that positions are character positions.

use vstd::prelude::*;

verus! {

/// `String::push` appends exactly one character to the end of the string.
pub assume_specification[ String::push ](s: &mut String, ch: char)
    ensures
        final(s)@ == old(s)@.push(ch),
;

/// The characters of `s`, in order.
pub fn chars_of(s: &str) -> (out: Vec<char>)
    ensures
        out@ == s@,
{
    let mut out: Vec<char> = Vec::new();
    for c in it: s.chars()
        invariant
            it.seq() == s@,
            out@ == it.seq().take(it.index() as int),
    {
        out.push(c);
    }
    out
}

/// The string whose characters are those of `v`, in order.
pub fn string_of(v: &Vec<char>) -> (out: String)
    ensures
        out@ == v@,
{
    let mut out = String::new();
    let mut i: usize = 0;
    while i < v.len()
        invariant
            i <= v.len(),
            out@ == v@.take(i as int),
        decreases v.len() - i,
    {
        out.push(v[i]);
        i += 1;
    }
    out
}

/// Puts the characters of `more` at the end of `out`.
pub fn append_chars(out: &mut Vec<char>, more: &Vec<char>)
    ensures
        final(out)@ == old(out)@ + more@,
{
    let ghost start = out@;
    let mut j: usize = 0;
    assert(more@.take(0) =~= Seq::<char>::empty());
    assert(start + Seq::<char>::empty() =~= start);
    while j < more.len()
        invariant
            j <= more.len(),
            out@ == start + more@.take(j as int),
        decreases more.len() - j,
    {
        out.push(more[j]);
        assert(more@.take(j as int).push(more@[j as int]) =~= more@.take(j + 1));
        j += 1;
    }
    assert(more@.take(j as int) =~= more@);
}

/// The characters with the Unicode property `White_Space`.
pub open spec fn is_space(c: char) -> bool {
    ||| ('\u{9}' <= c && c <= '\u{d}')
    ||| c == ' '
    ||| c == '\u{85}'
    ||| c == '\u{a0}'
    ||| c == '\u{1680}'
    ||| ('\u{2000}' <= c && c <= '\u{200a}')
    ||| c == '\u{2028}'
    ||| c == '\u{2029}'
    ||| c == '\u{202f}'
    ||| c == '\u{205f}'
    ||| c == '\u{3000}'
}

/// Whether `c` is a white-space character.
pub fn is_space_exec(c: char) -> (r: bool)
    ensures
        r == is_space(c),
{
    ('\u{9}' <= c && c <= '\u{d}') || c == ' ' || c == '\u{85}' || c == '\u{a0}' || c
        == '\u{1680}' || ('\u{2000}' <= c && c <= '\u{200a}') || c == '\u{2028}' || c
        == '\u{2029}' || c == '\u{202f}' || c == '\u{205f}' || c == '\u{3000}'
}

/// Which characters a trim removes from the ends of a text.
#[derive(Clone, Copy, Debug)]
pub enum Strip {
    /// Every white-space character.
    Whitespace,
    /// The double quote only.
    Quote,
}

impl Strip {
    /// Whether a trim of this kind removes `c`.
    pub open spec fn hits(self, c: char) -> bool {
        match self {
            Strip::Whitespace => is_space(c),
            Strip::Quote => c == '"',
        }
    }

    /// Whether a trim of this kind removes `c`.
    pub fn hits_exec(self, c: char) -> (r: bool)
        ensures
            r == self.hits(c),
    {
        match self {
            Strip::Whitespace => is_space_exec(c),
            Strip::Quote => c == '"',
        }
    }
}

/// `s` without its longest prefix of characters that `what` removes.
pub open spec fn trim_start_by(s: Seq<char>, what: Strip) -> Seq<char>
    decreases s.len(),
{
    if s.len() > 0 && what.hits(s[0]) {
        trim_start_by(s.skip(1), what)
    } else {
        s
    }
}

/// `s` without its longest suffix of characters that `what` removes.
pub open spec fn trim_end_by(s: Seq<char>, what: Strip) -> Seq<char>
    decreases s.len(),
{
    if s.len() > 0 && what.hits(s.last()) {
        trim_end_by(s.drop_last(), what)
    } else {
        s
    }
}

/// `s` with the characters that `what` removes taken off both ends.
pub open spec fn trim_by(s: Seq<char>, what: Strip) -> Seq<char> {
    trim_end_by(trim_start_by(s, what), what)
}

/// `s` without surrounding white space.
pub open spec fn trim(s: Seq<char>) -> Seq<char> {
    trim_by(s, Strip::Whitespace)
}

/// `s` with the characters that `what` removes taken off both ends.
pub fn trim_by_exec(s: &Vec<char>, what: Strip) -> (out: Vec<char>)
    ensures
        out@ == trim_by(s@, what),
{
    let n = s.len();
    let mut lo: usize = 0;
    assert(s@.skip(0) =~= s@);
    while lo < n && what.hits_exec(s[lo])
        invariant
            lo <= n,
            n == s.len(),
            trim_start_by(s@, what) == trim_start_by(s@.skip(lo as int), what),
        decreases n - lo,
    {
        assert(s@.skip(lo as int).skip(1) =~= s@.skip(lo + 1));
        lo += 1;
    }
    assert(trim_start_by(s@, what) == s@.skip(lo as int));
    let mut hi: usize = n;
    while hi > lo && what.hits_exec(s[hi - 1])
        invariant
            lo <= hi <= n,
            n == s.len(),
            trim_by(s@, what) == trim_end_by(s@.subrange(lo as int, hi as int), what),
        decreases hi,
    {
        assert(s@.subrange(lo as int, hi as int).drop_last() =~= s@.subrange(
            lo as int,
            hi - 1,
        ));
        hi -= 1;
    }
    let mut out: Vec<char> = Vec::new();
    let mut i: usize = lo;
    while i < hi
        invariant
            lo <= i <= hi <= n,
            n == s.len(),
            out@ == s@.subrange(lo as int, i as int),
        decreases hi - i,
    {
        out.push(s[i]);
        assert(s@.subrange(lo as int, i as int).push(s@[i as int]) =~= s@.subrange(
            lo as int,
            i + 1,
        ));
        i += 1;
    }
    out
}

/// `p` stands in `s` at position `i`.
pub open spec fn matches_at(s: Seq<char>, i: int, p: Seq<char>) -> bool {
    0 <= i && i + p.len() <= s.len() && s.subrange(i, i + p.len()) == p
}

/// `s` begins with `p`.
pub open spec fn starts_with(s: Seq<char>, p: Seq<char>) -> bool {
    matches_at(s, 0, p)
}

/// `s` ends with `p`.
pub open spec fn ends_with(s: Seq<char>, p: Seq<char>) -> bool {
    matches_at(s, s.len() - p.len(), p)
}

/// `p` stands somewhere in `s`.
pub open spec fn contains(s: Seq<char>, p: Seq<char>) -> bool {
    exists|i: int| matches_at(s, i, p)
}

/// Whether `p` stands in `s` at position `i`.
pub fn matches_at_exec(s: &Vec<char>, i: usize, p: &Vec<char>) -> (r: bool)
    ensures
        r == matches_at(s@, i as int, p@),
{
    if p.len() > s.len() || i > s.len() - p.len() {
        return false;
    }
    let mut j: usize = 0;
    while j < p.len()
        invariant
            j <= p.len(),
            i + p.len() <= s.len(),
            forall|k: int| 0 <= k < j ==> s@[i + k] == p@[k],
        decreases p.len() - j,
    {
        if s[i + j] != p[j] {
            assert(s@.subrange(i as int, i + p.len())[j as int] != p@[j as int]);
            return false;
        }
        j += 1;
    }
    assert(s@.subrange(i as int, i + p.len()) =~= p@);
    true
}

/// Whether `s` begins with `p`.
pub fn starts_with_exec(s: &Vec<char>, p: &Vec<char>) -> (r: bool)
    ensures
        r == starts_with(s@, p@),
{
    matches_at_exec(s, 0, p)
}

/// Whether `s` ends with `p`.
pub fn ends_with_exec(s: &Vec<char>, p: &Vec<char>) -> (r: bool)
    ensures
        r == ends_with(s@, p@),
{
    if p.len() > s.len() {
        return false;
    }
    matches_at_exec(s, s.len() - p.len(), p)
}

/// Whether `a` and `b` hold the same characters.
pub fn same_text(a: &Vec<char>, b: &Vec<char>) -> (r: bool)
    ensures
        r == (a@ == b@),
{
    if a.len() != b.len() {
        return false;
    }
    let r = matches_at_exec(a, 0, b);
    assert(a@.subrange(0, a@.len() as int) =~= a@);
    r
}

/// Whether `p` stands somewhere in `s`.
pub fn contains_exec(s: &Vec<char>, p: &Vec<char>) -> (r: bool)
    ensures
        r == contains(s@, p@),
{
    if p.len() > s.len() {
        return false;
    }
    let last: usize = s.len() - p.len();
    let mut i: usize = 0;
    while i < last
        invariant
            i <= last,
            last == s.len() - p.len(),
            forall|k: int| k < i ==> !matches_at(s@, k, p@),
        decreases last - i,
    {
        if matches_at_exec(s, i, p) {
            return true;
        }
        i += 1;
    }
    matches_at_exec(s, last, p)
}

/// `s` with every leading repetition of the non-empty text `p` removed.
pub open spec fn strip_repeated_prefix(s: Seq<char>, p: Seq<char>) -> Seq<char>
    decreases s.len(),
{
    if p.len() > 0 && starts_with(s, p) {
        strip_repeated_prefix(s.skip(p.len() as int), p)
    } else {
        s
    }
}

/// `s` with every leading repetition of `p` removed.
pub fn strip_repeated_prefix_exec(s: &Vec<char>, p: &Vec<char>) -> (out: Vec<char>)
    ensures
        out@ == strip_repeated_prefix(s@, p@),
{
    let n = s.len();
    let mut off: usize = 0;
    assert(s@.skip(0) =~= s@);
    if p.len() > 0 {
        while matches_at_exec(s, off, p)
            invariant
                off <= n,
                n == s.len(),
                p.len() > 0,
                strip_repeated_prefix(s@, p@) == strip_repeated_prefix(s@.skip(off as int), p@),
            decreases n - off,
        {
            assert(s@.skip(off as int).subrange(0, p@.len() as int) =~= s@.subrange(
                off as int,
                off + p@.len(),
            ));
            assert(s@.skip(off as int).skip(p@.len() as int) =~= s@.skip(off + p@.len()));
            off += p.len();
        }
        assert(!starts_with(s@.skip(off as int), p@)) by {
            if off + p@.len() <= n {
                assert(s@.skip(off as int).subrange(0, p@.len() as int) =~= s@.subrange(
                    off as int,
                    off + p@.len(),
                ));
            }
        }
    }
    let mut out: Vec<char> = Vec::new();
    let mut i: usize = off;
    while i < n
        invariant
            off <= i <= n,
            n == s.len(),
            out@ == s@.subrange(off as int, i as int),
        decreases n - i,
    {
        out.push(s[i]);
        assert(s@.subrange(off as int, i as int).push(s@[i as int]) =~= s@.subrange(
            off as int,
            i + 1,
        ));
        i += 1;
    }
    assert(s@.subrange(off as int, n as int) =~= s@.skip(off as int));
    out
}

/// The pieces of `s` between occurrences of `sep`: one more piece than there
/// are separators, so the empty text has the one empty piece.
pub open spec fn split(s: Seq<char>, sep: char) -> Seq<Seq<char>>
    decreases s.len(),
{
    if s.len() == 0 {
        seq![Seq::<char>::empty()]
    } else {
        let before = split(s.drop_last(), sep);
        if s.last() == sep {
            before.push(Seq::<char>::empty())
        } else {
            before.drop_last().push(before.last().push(s.last()))
        }
    }
}

/// The pieces put together again with `sep` between neighbours.
pub open spec fn join(pieces: Seq<Seq<char>>, sep: char) -> Seq<char>
    decreases pieces.len(),
{
    if pieces.len() == 0 {
        Seq::<char>::empty()
    } else if pieces.len() == 1 {
        pieces[0]
    } else {
        join(pieces.drop_last(), sep).push(sep) + pieces.last()
    }
}

/// The lines of `s`: its pieces between line feeds, without the empty piece
/// that follows a final line feed.
pub open spec fn lines(s: Seq<char>) -> Seq<Seq<char>> {
    let pieces = split(s, '\n');
    if pieces.last().len() == 0 {
        pieces.drop_last()
    } else {
        pieces
    }
}

/// The views of the texts in `v`.
pub open spec fn texts(v: Seq<Vec<char>>) -> Seq<Seq<char>> {
    Seq::new(v.len(), |i: int| v[i]@)
}

/// The pieces of `s` between occurrences of `sep`.
pub fn split_exec(s: &Vec<char>, sep: char) -> (out: Vec<Vec<char>>)
    ensures
        texts(out@) == split(s@, sep),
        out.len() >= 1,
{
    let mut done: Vec<Vec<char>> = Vec::new();
    let mut cur: Vec<char> = Vec::new();
    let mut i: usize = 0;
    while i < s.len()
        invariant
            i <= s.len(),
            texts(done@).push(cur@) == split(s@.take(i as int), sep),
        decreases s.len() - i,
    {
        let c = s[i];
        proof {
            assert(s@.take(i + 1).drop_last() =~= s@.take(i as int));
            assert(s@.take(i + 1).last() == c);
            assert(texts(done@).push(cur@).drop_last() =~= texts(done@));
        }
        if c == sep {
            let ghost before = texts(done@);
            done.push(cur);
            cur = Vec::new();
            assert(texts(done@) =~= before.push(done@.last()@));
        } else {
            cur.push(c);
        }
        i += 1;
    }
    assert(s@.take(i as int) =~= s@);
    let ghost before = texts(done@);
    done.push(cur);
    assert(texts(done@) =~= before.push(cur@));
    done
}

/// The lines of `s`.
pub fn lines_exec(s: &Vec<char>) -> (out: Vec<Vec<char>>)
    ensures
        texts(out@) == lines(s@),
{
    let mut out = split_exec(s, '\n');
    let n = out.len();
    if out[n - 1].len() == 0 {
        let ghost before = texts(out@);
        assert(before.last() == out@[n - 1]@);
        out.pop();
        assert(texts(out@) =~= before.drop_last());
    }
    out
}

/// Joins the pieces from position `from` on.
pub fn join_from_exec(pieces: &Vec<Vec<char>>, from: usize, sep: char) -> (out: Vec<char>)
    requires
        from <= pieces.len(),
    ensures
        out@ == join(texts(pieces@).skip(from as int), sep),
{
    let mut out: Vec<char> = Vec::new();
    if from >= pieces.len() {
        assert(texts(pieces@).skip(from as int).len() == 0);
        return out;
    }
    let ghost all = texts(pieces@).skip(from as int);
    let mut i: usize = from;
    while i < pieces.len()
        invariant
            from <= i <= pieces.len(),
            from < pieces.len(),
            all == texts(pieces@).skip(from as int),
            out@ == join(all.take(i - from), sep),
        decreases pieces.len() - i,
    {
        if i > from {
            out.push(sep);
        }
        let piece = &pieces[i];
        let ghost start = out@;
        append_chars(&mut out, piece);
        proof {
            let next = all.take(i + 1 - from);
            assert(next.drop_last() =~= all.take(i - from));
            assert(next.last() == piece@);
            if i == from {
                assert(all.take(0).len() == 0);
                assert(start + piece@ =~= piece@);
            }
        }
        i += 1;
    }
    assert(all.take(i - from) =~= all);
    out
}

} // verus!
