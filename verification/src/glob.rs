//! Exclude-pattern matching: `*` matches within one path segment.
use vstd::prelude::*;

use crate::text::{chars_of, occurs_at, occurs_at_exec, has_char_in, views, lemma_push_contains};

verus! {

/// The pieces of `p` between `*` characters, as `str::split('*')` yields
/// them: a pattern with `k` stars has `k + 1` pieces, some possibly empty.
pub open spec fn split_star(p: Seq<char>) -> Seq<Seq<char>>
    decreases p.len(),
{
    if p.len() == 0 {
        seq![Seq::<char>::empty()]
    } else {
        let front = split_star(p.drop_last());
        if p.last() == '*' {
            front.push(Seq::<char>::empty())
        } else {
            front.update(front.len() - 1, front.last().push(p.last()))
        }
    }
}

/// `s` holds no `/`.
pub open spec fn slash_free_text(s: Seq<char>) -> bool {
    !s.contains('/')
}

/// `s` contains `p` as a contiguous piece.
pub open spec fn contains_piece(s: Seq<char>, p: Seq<char>) -> bool {
    exists|off: int| occurs_at(s, p, off)
}

/// Matching of the star-separated `parts` against `path`.
///
/// The last part, when non-empty, must end the path; each literal may start
/// at any occurrence; once a literal has been matched, the gap before the
/// next literal must not hold a `/` (`segment_local`). Empty parts (leading
/// or repeated stars) leave the gap rule as it was.
pub open spec fn parts_match(parts: Seq<Seq<char>>, path: Seq<char>, segment_local: bool) -> bool
    decreases parts.len(),
{
    if parts.len() == 0 {
        true
    } else if parts.len() == 1 {
        let last = parts[0];
        last.len() == 0 || (last.len() <= path.len() && path.skip(path.len() - last.len()) == last
            && (!segment_local || slash_free_text(path.take(path.len() - last.len()))))
    } else if parts[0].len() == 0 {
        parts_match(parts.drop_first(), path, segment_local)
    } else {
        exists|off: int|
            #![trigger occurs_at(path, parts[0], off)]
            occurs_at(path, parts[0], off) && (!segment_local || slash_free_text(path.take(off)))
                && parts_match(parts.drop_first(), path.skip(off + parts[0].len()), true)
    }
}

/// What `glob_match` decides: without `*` the pattern is an unanchored
/// substring; otherwise its pieces are matched by `parts_match`.
pub open spec fn glob_matches(pattern: Seq<char>, path: Seq<char>) -> bool {
    let parts = split_star(pattern);
    if parts.len() == 1 {
        contains_piece(path, parts[0])
    } else {
        parts_match(parts, path, false)
    }
}

proof fn lemma_split_star_nonempty(p: Seq<char>)
    ensures
        split_star(p).len() >= 1,
    decreases p.len(),
{
    if p.len() > 0 {
        lemma_split_star_nonempty(p.drop_last());
    }
}

/// Split a pattern on `*`.
fn split_on_star(pattern: &Vec<char>) -> (parts: Vec<Vec<char>>)
    ensures
        views(parts@) == split_star(pattern@),
        parts.len() >= 1,
{
    let mut parts: Vec<Vec<char>> = Vec::new();
    parts.push(Vec::new());
    let mut i: usize = 0;
    assert(pattern@.take(0) =~= Seq::<char>::empty());
    assert(views(parts@) =~= split_star(pattern@.take(0)));
    while i < pattern.len()
        invariant
            0 <= i <= pattern.len(),
            parts.len() >= 1,
            views(parts@) == split_star(pattern@.take(i as int)),
        decreases pattern.len() - i,
    {
        let c = pattern[i];
        let ghost before = views(parts@);
        assert(pattern@.take(i + 1).drop_last() =~= pattern@.take(i as int));
        if c == '*' {
            parts.push(Vec::new());
            assert(views(parts@) =~= before.push(Seq::<char>::empty()));
        } else {
            let last_index = parts.len() - 1;
            let mut last = parts.remove(last_index);
            last.push(c);
            parts.push(last);
            assert(views(parts@) =~= before.update(before.len() - 1, before.last().push(c)));
        }
        i = i + 1;
    }
    assert(pattern@.take(pattern.len() as int) =~= pattern@);
    parts
}

/// Recursive backtracking over the occurrences of each literal.
fn match_parts(
    parts: &Vec<Vec<char>>,
    first: usize,
    path: &Vec<char>,
    start: usize,
    segment_local: bool,
) -> (r: bool)
    requires
        first < parts.len(),
        start <= path.len(),
    ensures
        r == parts_match(views(parts@).skip(first as int), path@.skip(start as int), segment_local),
    decreases parts.len() - first,
{
    let ghost ps = views(parts@).skip(first as int);
    let ghost rest = path@.skip(start as int);
    assert(ps[0] == parts[first as int]@);
    if first + 1 == parts.len() {
        let last = &parts[first];
        if last.len() == 0 {
            return true;
        }
        if last.len() > path.len() - start {
            return false;
        }
        let cut = path.len() - last.len();
        let ends = occurs_at_exec(path, last, cut);
        if !ends {
            proof {
                assert(rest.skip(rest.len() - last@.len()) =~= path@.subrange(cut as int, cut + last@.len()));
            }
            return false;
        }
        proof {
            assert(rest.skip(rest.len() - last@.len()) =~= path@.subrange(cut as int, cut + last@.len()));
            assert(rest.take(rest.len() - last@.len()) =~= path@.subrange(start as int, cut as int));
        }
        return !segment_local || !has_char_in(path, start, cut, '/');
    }
    assert(ps.drop_first() =~= views(parts@).skip(first + 1));
    let part = &parts[first];
    if part.len() == 0 {
        return match_parts(parts, first + 1, path, start, segment_local);
    }
    if part.len() > path.len() - start {
        proof {
            assert forall|off: int| !occurs_at(rest, ps[0], off) by {}
        }
        return false;
    }
    let last_off = path.len() - start - part.len();
    let mut off: usize = 0;
    let mut gap_has_slash = false;
    assert(rest.take(0) =~= Seq::<char>::empty());
    while off <= last_off
        invariant
            ps == views(parts@).skip(first as int),
            ps.drop_first() == views(parts@).skip(first + 1),
            rest == path@.skip(start as int),
            ps[0] == part@,
            part.len() > 0,
            first + 1 < parts.len(),
            start + part.len() <= path.len(),
            last_off == path.len() - start - part.len(),
            off <= last_off + 1,
            gap_has_slash == rest.take(off as int).contains('/'),
            forall|o: int|
                #![trigger occurs_at(rest, ps[0], o)]
                0 <= o < off ==> !(occurs_at(rest, ps[0], o) && (!segment_local
                    || slash_free_text(rest.take(o))) && parts_match(
                    ps.drop_first(),
                    rest.skip(o + ps[0].len()),
                    true,
                )),
        decreases last_off + 1 - off,
    {
        if segment_local && gap_has_slash {
            proof {
                assert forall|o: int|
                    off <= o && #[trigger] occurs_at(rest, ps[0], o) implies !slash_free_text(
                    rest.take(o),
                ) by {
                    let w = choose|j: int|
                        0 <= j < rest.take(off as int).len() && rest.take(off as int)[j] == '/';
                    assert(rest.take(o)[w] == '/');
                }
            }
            return false;
        }
        let here = occurs_at_exec(path, part, start + off);
        proof {
            assert(rest.subrange(off as int, off + part@.len()) =~= path@.subrange(
                start + off,
                start + off + part@.len(),
            ));
            assert(here == occurs_at(rest, ps[0], off as int));
        }
        if here {
            let after = start + off + part.len();
            assert(rest.skip(off + ps[0].len()) =~= path@.skip(after as int));
            if match_parts(parts, first + 1, path, after, true) {
                assert(occurs_at(rest, ps[0], off as int) && (!segment_local || slash_free_text(
                    rest.take(off as int),
                )) && parts_match(ps.drop_first(), rest.skip(off + ps[0].len()), true));
                return true;
            }
        }
        proof {
            assert(rest.take(off + 1) =~= rest.take(off as int).push(rest[off as int]));
            lemma_push_contains(rest.take(off as int), rest[off as int], '/');
        }
        gap_has_slash = gap_has_slash || path[start + off] == '/';
        off = off + 1;
    }
    proof {
        assert forall|o: int|
            !(#[trigger] occurs_at(rest, ps[0], o) && (!segment_local || slash_free_text(
                rest.take(o),
            )) && parts_match(ps.drop_first(), rest.skip(o + ps[0].len()), true)) by {
            if occurs_at(rest, ps[0], o) {
                assert(o <= last_off);
            }
        }
    }
    false
}

/// Does the exclude `pattern` match `path`?
///
/// A pattern without `*` is an unanchored substring match. Otherwise the
/// pattern's literal pieces must occur in order; the first may start
/// anywhere, a `*` between two literals stands for characters other than
/// `/`, a non-empty last piece must end the path, and a trailing `*` lifts
/// that anchor. Every occurrence of each literal is tried, so a match at a
/// later position is never missed.
pub fn glob_match(pattern: &str, path: &str) -> (r: bool)
    ensures
        r == glob_matches(pattern@, path@),
{
    let pattern_chars = chars_of(pattern);
    let path_chars = chars_of(path);
    let parts = split_on_star(&pattern_chars);
    if parts.len() == 1 {
        let piece = &parts[0];
        assert(views(parts@)[0] == piece@);
        return crate::text::contains_exec(&path_chars, piece);
    }
    assert(views(parts@).skip(0) =~= views(parts@));
    assert(path_chars@.skip(0) =~= path_chars@);
    match_parts(&parts, 0, &path_chars, 0, false)
}

} // verus!
