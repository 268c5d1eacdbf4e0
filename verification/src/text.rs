//! Text as sequences of characters: the searching, cutting and joining
//! that the wire format is described with.
//!
//! Every executable function here works on a slice of characters and is
//! specified by the spec function of the same meaning over `Seq<char>`.

use vstd::prelude::*;
use vstd::string::*;

verus! {

/// `String::push` appends one character at the end of the string.
pub assume_specification[ String::push ](s: &mut String, c: char)
    ensures
        final(s)@ == old(s)@.push(c),
;

/// The line terminator.
pub open spec fn crlf() -> Seq<char> {
    seq!['\r', '\n']
}

/// Two line terminators in a row: what parts the header lines from the body.
pub open spec fn blank_line() -> Seq<char> {
    seq!['\r', '\n', '\r', '\n']
}

/// What parts the tokens of the request line.
pub open spec fn space() -> Seq<char> {
    seq![' ']
}

/// What parts the name of a header field from its value.
pub open spec fn colon_space() -> Seq<char> {
    seq![':', ' ']
}

/// `p` stands in `s` at index `i`.
pub open spec fn occurs_at(s: Seq<char>, p: Seq<char>, i: int) -> bool {
    &&& 0 <= i
    &&& i + p.len() <= s.len()
    &&& s.subrange(i, i + p.len()) == p
}

/// `p` stands in `s` at index `i` and at no index before it.
pub open spec fn first_at(s: Seq<char>, p: Seq<char>, i: int) -> bool {
    &&& occurs_at(s, p, i)
    &&& forall|j: int| 0 <= j < i ==> !occurs_at(s, p, j)
}

/// `p` stands somewhere in `s`.
pub open spec fn occurs(s: Seq<char>, p: Seq<char>) -> bool {
    exists|i: int| occurs_at(s, p, i)
}

/// A pattern of one character, or of two different ones: where two
/// occurrences of such a pattern overlap, they are the same occurrence.
pub open spec fn is_short_pattern(p: Seq<char>) -> bool {
    p.len() == 1 || (p.len() == 2 && p[0] != p[1])
}

/// The index of the first occurrence of `p` in `s`, if there is one.
pub open spec fn find(s: Seq<char>, p: Seq<char>) -> Option<int> {
    if exists|i: int| first_at(s, p, i) {
        Some(choose|i: int| first_at(s, p, i))
    } else {
        None
    }
}

/// The pieces of `s` between the occurrences of `p`, taken from the left
/// and without overlap. An empty `p` separates nothing.
pub open spec fn pieces(s: Seq<char>, p: Seq<char>) -> Seq<Seq<char>>
    decreases s.len(),
    via pieces_decreases
{
    match find(s, p) {
        Some(i) if p.len() > 0 => seq![s.subrange(0, i)] + pieces(
            s.subrange(i + p.len(), s.len() as int),
            p,
        ),
        _ => seq![s],
    }
}

#[via_fn]
proof fn pieces_decreases(s: Seq<char>, p: Seq<char>) {
    lemma_find_some(s, p);
}

/// The parts put together with `sep` between each two neighbours.
pub open spec fn joined(parts: Seq<Seq<char>>, sep: Seq<char>) -> Seq<char>
    decreases parts.len(),
{
    if parts.len() == 0 {
        Seq::empty()
    } else if parts.len() == 1 {
        parts[0]
    } else {
        parts[0] + sep + joined(parts.drop_first(), sep)
    }
}

/// `s` with every occurrence of `p` replaced by `with`, from the left and
/// without overlap.
pub open spec fn replaced(s: Seq<char>, p: Seq<char>, with: Seq<char>) -> Seq<char> {
    joined(pieces(s, p), with)
}

/// `s` cut at the first occurrence of `p`: what stands before it and what
/// stands after it.
pub open spec fn halves(s: Seq<char>, p: Seq<char>) -> Option<(Seq<char>, Seq<char>)> {
    match find(s, p) {
        Some(i) => Some((s.subrange(0, i), s.subrange(i + p.len(), s.len() as int))),
        None => None,
    }
}

/// The views of the rows of a table of characters.
pub open spec fn rows(table: Seq<Vec<char>>) -> Seq<Seq<char>> {
    Seq::new(table.len(), |i: int| table[i]@)
}

/// `find` gives an index exactly where `p` occurs in `s`.
pub proof fn find_is_some_iff_occurs(s: Seq<char>, p: Seq<char>)
    ensures
        find(s, p) is Some <==> occurs(s, p),
{
    if occurs(s, p) {
        let i = choose|i: int| occurs_at(s, p, i);
        lemma_find_exists(s, p, i);
    }
}

/// A first occurrence is the one that `find` gives.
pub proof fn lemma_find_first(s: Seq<char>, p: Seq<char>, i: int)
    requires
        first_at(s, p, i),
    ensures
        find(s, p) == Some(i),
{
    let k = choose|k: int| first_at(s, p, k);
    assert(first_at(s, p, k));
    if k < i {
        assert(!occurs_at(s, p, k));
    }
    if i < k {
        assert(!occurs_at(s, p, i));
    }
}

/// Where `p` occurs nowhere, `find` gives nothing.
pub proof fn lemma_find_none(s: Seq<char>, p: Seq<char>)
    requires
        !occurs(s, p),
    ensures
        find(s, p) is None,
        pieces(s, p) == seq![s],
{
    if exists|i: int| first_at(s, p, i) {
        let k = choose|k: int| first_at(s, p, k);
        assert(occurs_at(s, p, k));
    }
}

/// Where `p` occurs, it occurs somewhere first.
pub proof fn lemma_find_exists(s: Seq<char>, p: Seq<char>, i: int)
    requires
        occurs_at(s, p, i),
    ensures
        find(s, p) matches Some(k) && k <= i,
    decreases i,
{
    if forall|j: int| 0 <= j < i ==> !occurs_at(s, p, j) {
        lemma_find_first(s, p, i);
    } else {
        let j = choose|j: int| 0 <= j < i && occurs_at(s, p, j);
        lemma_find_exists(s, p, j);
    }
}

/// What `find` gives is a first occurrence.
pub proof fn lemma_find_some(s: Seq<char>, p: Seq<char>)
    ensures
        find(s, p) matches Some(i) ==> first_at(s, p, i),
{
}

/// `s` is never cut into no piece at all.
pub proof fn lemma_pieces_nonempty(s: Seq<char>, p: Seq<char>)
    ensures
        pieces(s, p).len() >= 1,
    decreases s.len(),
{
    lemma_find_some(s, p);
    match find(s, p) {
        Some(i) if p.len() > 0 => {
            lemma_pieces_nonempty(s.subrange(i + p.len(), s.len() as int), p);
        },
        _ => {},
    }
}

/// Joining goes on to the right: one more part adds the separator and the part.
pub proof fn lemma_joined_push(parts: Seq<Seq<char>>, sep: Seq<char>, last: Seq<char>)
    requires
        parts.len() >= 1,
    ensures
        joined(parts.push(last), sep) == joined(parts, sep) + sep + last,
    decreases parts.len(),
{
    let all = parts.push(last);
    assert(all.drop_first() =~= parts.drop_first().push(last));
    if parts.len() == 1 {
        assert(all.drop_first() =~= seq![last]);
        assert(joined(all.drop_first(), sep) == last);
    } else {
        lemma_joined_push(parts.drop_first(), sep, last);
        assert(joined(all, sep) =~= joined(parts, sep) + sep + last);
    }
}

/// Where `p` stands nowhere in `a + p + b` before the end of `a`, its first
/// occurrence there is the one that follows `a`.
pub proof fn lemma_find_after(a: Seq<char>, p: Seq<char>, b: Seq<char>)
    requires
        forall|j: int| 0 <= j < a.len() ==> !occurs_at(a + p + b, p, j),
    ensures
        find(a + p + b, p) == Some(a.len() as int),
        halves(a + p + b, p) == Some((a, b)),
{
    let t = a + p + b;
    assert(t.subrange(a.len() as int, (a.len() + p.len()) as int) =~= p);
    lemma_find_first(t, p, a.len() as int);
    assert(t.subrange(0, a.len() as int) =~= a);
    assert(t.subrange((a.len() + p.len()) as int, t.len() as int) =~= b);
}

/// A short pattern that does not occur in `a` occurs in `a + p + b` first
/// behind `a`: no occurrence begins in `a` and ends in `p`.
pub proof fn lemma_short_after(a: Seq<char>, p: Seq<char>, b: Seq<char>)
    requires
        is_short_pattern(p),
        !occurs(a, p),
    ensures
        find(a + p + b, p) == Some(a.len() as int),
        halves(a + p + b, p) == Some((a, b)),
{
    let t = a + p + b;
    assert forall|j: int| 0 <= j < a.len() implies !occurs_at(t, p, j) by {
        if occurs_at(t, p, j) {
            let found = t.subrange(j, j + p.len());
            if j + p.len() <= a.len() {
                assert(a.subrange(j, j + p.len()) =~= found);
                assert(occurs_at(a, p, j));
            } else {
                assert(found[1] == p[1]);
                assert(t[j + 1] == p[0]);
            }
        }
    }
    lemma_find_after(a, p, b);
}

/// Two texts in which a short pattern does not occur give a text in which
/// it does not occur, unless the pattern is made where they meet.
pub proof fn lemma_concat_free(a: Seq<char>, b: Seq<char>, p: Seq<char>)
    requires
        is_short_pattern(p),
        !occurs(a, p),
        !occurs(b, p),
        p.len() == 2 ==> a.len() == 0 || b.len() == 0 || a.last() != p[0] || b[0] != p[1],
    ensures
        !occurs(a + b, p),
{
    let t = a + b;
    assert forall|j: int| !occurs_at(t, p, j) by {
        if occurs_at(t, p, j) {
            let found = t.subrange(j, j + p.len());
            assert(found[0] == p[0]);
            if j + p.len() <= a.len() {
                assert(a.subrange(j, j + p.len()) =~= found);
                assert(occurs_at(a, p, j));
            } else if j >= a.len() {
                assert(b.subrange(j - a.len(), j - a.len() + p.len()) =~= found);
                assert(occurs_at(b, p, j - a.len()));
            } else {
                assert(found[1] == p[1]);
                assert(t[j] == a.last());
                assert(t[j + 1] == b[0]);
            }
        }
    }
}

/// Cutting undoes joining: parts in which a short separator does not occur
/// come back as they were.
pub proof fn lemma_pieces_joined(parts: Seq<Seq<char>>, sep: Seq<char>)
    requires
        parts.len() >= 1,
        is_short_pattern(sep),
        forall|i: int| 0 <= i < parts.len() ==> !occurs(#[trigger] parts[i], sep),
    ensures
        pieces(joined(parts, sep), sep) == parts,
    decreases parts.len(),
{
    if parts.len() == 1 {
        lemma_find_none(parts[0], sep);
        assert(parts =~= seq![parts[0]]);
    } else {
        let rest = parts.drop_first();
        assert forall|i: int| 0 <= i < rest.len() implies !occurs(#[trigger] rest[i], sep) by {
            assert(rest[i] == parts[i + 1]);
        }
        lemma_pieces_joined(rest, sep);
        let tail = joined(rest, sep);
        lemma_short_after(parts[0], sep, tail);
        let whole = parts[0] + sep + tail;
        assert(whole.subrange(0, parts[0].len() as int) =~= parts[0]);
        assert(whole.subrange((parts[0].len() + sep.len()) as int, whole.len() as int) =~= tail);
        assert(parts =~= seq![parts[0]] + rest);
    }
}

/// The characters of `s`, in order.
pub fn chars_of(s: &str) -> (out: Vec<char>)
    ensures
        out@ == s@,
{
    let mut out: Vec<char> = Vec::new();
    for c in it: s.chars()
        invariant
            it.seq() == s@,
            out@ == s@.subrange(0, it.index()),
    {
        out.push(c);
    }
    out
}

/// The string made of the characters of `v`, in order.
pub fn string_of(v: &[char]) -> (out: String)
    ensures
        out@ == v@,
{
    let mut out = String::new();
    let mut i: usize = 0;
    while i < v.len()
        invariant
            i <= v.len(),
            out@ == v@.subrange(0, i as int),
        decreases v.len() - i,
    {
        out.push(v[i]);
        i += 1;
    }
    out
}

/// The characters of `s` from index `from` up to, not including, `to`.
pub fn copy_range(s: &[char], from: usize, to: usize) -> (out: Vec<char>)
    requires
        from <= to <= s.len(),
    ensures
        out@ == s@.subrange(from as int, to as int),
{
    let mut out: Vec<char> = Vec::new();
    let mut i: usize = from;
    while i < to
        invariant
            from <= i <= to <= s.len(),
            out@ == s@.subrange(from as int, i as int),
        decreases to - i,
    {
        out.push(s[i]);
        i += 1;
    }
    out
}

/// Whether `p` stands in `s` at index `i`.
pub fn matches_at(s: &[char], p: &[char], i: usize) -> (found: bool)
    ensures
        found == occurs_at(s@, p@, i as int),
{
    if p.len() > s.len() || i > s.len() - p.len() {
        return false;
    }
    let mut k: usize = 0;
    while k < p.len()
        invariant
            k <= p.len(),
            i + p.len() <= s.len(),
            forall|j: int| 0 <= j < k ==> s@[i + j] == p@[j],
        decreases p.len() - k,
    {
        if s[i + k] != p[k] {
            proof {
                assert(s@.subrange(i as int, i + p.len())[k as int] == s@[i + k]);
            }
            return false;
        }
        k += 1;
    }
    proof {
        assert(s@.subrange(i as int, i + p.len()) =~= p@);
    }
    true
}

/// The index of the first occurrence of `p` in `s` at or after `from`.
pub fn find_from(s: &[char], p: &[char], from: usize) -> (at: Option<usize>)
    requires
        from <= s.len(),
    ensures
        match find(s@.subrange(from as int, s.len() as int), p@) {
            Some(k) => at == Some((from + k) as usize) && from + k + p.len() <= s.len(),
            None => at is None,
        },
{
    let ghost rest = s@.subrange(from as int, s.len() as int);
    let mut i: usize = from;
    loop
        invariant
            from <= i <= s.len(),
            rest == s@.subrange(from as int, s.len() as int),
            forall|j: int| 0 <= j < i - from ==> !occurs_at(rest, p@, j),
        ensures
            forall|j: int| 0 <= j <= s.len() - from ==> !occurs_at(rest, p@, j),
        decreases s.len() - i,
    {
        if matches_at(s, p, i) {
            proof {
                assert(rest.subrange(i - from, i - from + p.len()) =~= s@.subrange(
                    i as int,
                    i + p.len(),
                ));
                lemma_find_first(rest, p@, i - from);
            }
            return Some(i);
        }
        proof {
            if occurs_at(rest, p@, i - from) {
                assert(rest.subrange(i - from, i - from + p.len()) =~= s@.subrange(
                    i as int,
                    i + p.len(),
                ));
            }
        }
        if i == s.len() {
            break;
        }
        i += 1;
    }
    proof {
        lemma_find_none(rest, p@);
    }
    None
}

/// The pieces of `s` between the occurrences of `p`.
pub fn split(s: &[char], p: &[char]) -> (out: Vec<Vec<char>>)
    ensures
        rows(out@) == pieces(s@, p@),
{
    let mut out: Vec<Vec<char>> = Vec::new();
    if p.len() == 0 {
        out.push(copy_range(s, 0, s.len()));
        proof {
            assert(s@.subrange(0, s.len() as int) =~= s@);
            assert(rows(out@) =~= seq![s@]);
        }
        return out;
    }
    let mut pos: usize = 0;
    proof {
        assert(s@.subrange(0, s.len() as int) =~= s@);
        assert(rows(out@) + pieces(s@, p@) =~= pieces(s@, p@));
    }
    loop
        invariant_except_break
            pieces(s@, p@) == rows(out@) + pieces(s@.subrange(pos as int, s.len() as int), p@),
        invariant
            p.len() > 0,
            pos <= s.len(),
        ensures
            rows(out@) == pieces(s@, p@),
        decreases s.len() - pos,
    {
        let ghost rest = s@.subrange(pos as int, s.len() as int);
        let ghost before = rows(out@);
        match find_from(s, p, pos) {
            Some(at) => {
                let piece = copy_range(s, pos, at);
                out.push(piece);
                proof {
                    let k = at - pos;
                    assert(rest.subrange(0, k) =~= s@.subrange(pos as int, at as int));
                    assert(rest.subrange(k + p.len(), rest.len() as int) =~= s@.subrange(
                        at + p.len(),
                        s.len() as int,
                    ));
                    assert(rows(out@) =~= before + seq![rest.subrange(0, k)]);
                }
                pos = at + p.len();
            },
            None => {
                let piece = copy_range(s, pos, s.len());
                out.push(piece);
                proof {
                    assert(rows(out@) =~= before + seq![rest]);
                }
                break;
            },
        }
    }
    out
}

/// The parts put together with `sep` between each two neighbours.
pub fn join(parts: &Vec<Vec<char>>, sep: &[char]) -> (out: Vec<char>)
    ensures
        out@ == joined(rows(parts@), sep@),
{
    let mut out: Vec<char> = Vec::new();
    let mut i: usize = 0;
    while i < parts.len()
        invariant
            i <= parts.len(),
            out@ == joined(rows(parts@).subrange(0, i as int), sep@),
        decreases parts.len() - i,
    {
        let ghost done = rows(parts@).subrange(0, i as int);
        if i > 0 {
            append(&mut out, sep);
        }
        append(&mut out, parts[i].as_slice());
        proof {
            assert(rows(parts@).subrange(0, i + 1) =~= done.push(parts@[i as int]@));
            if i > 0 {
                lemma_joined_push(done, sep@, parts@[i as int]@);
            } else {
                assert(done.push(parts@[i as int]@) =~= seq![parts@[i as int]@]);
            }
        }
        i += 1;
    }
    proof {
        assert(rows(parts@).subrange(0, parts.len() as int) =~= rows(parts@));
    }
    out
}

/// Puts the characters of `more` at the end of `out`.
pub fn append(out: &mut Vec<char>, more: &[char])
    ensures
        final(out)@ == old(out)@ + more@,
{
    let mut i: usize = 0;
    while i < more.len()
        invariant
            i <= more.len(),
            out@ == old(out)@ + more@.subrange(0, i as int),
        decreases more.len() - i,
    {
        out.push(more[i]);
        i += 1;
    }
    proof {
        assert(more@.subrange(0, more.len() as int) =~= more@);
    }
}

/// `s` with every occurrence of `p` replaced by `with`; an empty `p`
/// occurs nowhere.
pub fn replace(s: &[char], p: &[char], with: &[char]) -> (out: Vec<char>)
    ensures
        out@ == replaced(s@, p@, with@),
{
    let pieces = split(s, p);
    join(&pieces, with)
}

/// `s` cut at the first occurrence of `p`.
pub fn split_once(s: &[char], p: &[char]) -> (out: Option<(Vec<char>, Vec<char>)>)
    ensures
        match halves(s@, p@) {
            Some((before, after)) => out matches Some((b, a)) && b@ == before && a@ == after,
            None => out is None,
        },
{
    match find_from(s, p, 0) {
        Some(at) => {
            proof {
                assert(s@.subrange(0, s.len() as int) =~= s@);
            }
            let before = copy_range(s, 0, at);
            let after = copy_range(s, at + p.len(), s.len());
            Some((before, after))
        },
        None => {
            proof {
                assert(s@.subrange(0, s.len() as int) =~= s@);
            }
            None
        },
    }
}

/// Whether `a` and `b` hold the same characters.
pub fn equal(a: &[char], b: &[char]) -> (same: bool)
    ensures
        same == (a@ == b@),
{
    if a.len() != b.len() {
        return false;
    }
    let mut i: usize = 0;
    while i < a.len()
        invariant
            i <= a.len(),
            a.len() == b.len(),
            forall|j: int| 0 <= j < i ==> a@[j] == b@[j],
        decreases a.len() - i,
    {
        if a[i] != b[i] {
            return false;
        }
        i += 1;
    }
    proof {
        assert(a@ =~= b@);
    }
    true
}

} // verus!
