//! JSON Pointer (RFC 6901) segments and the pointers of definitions.
use vstd::prelude::*;

use crate::text::{chars_of, has_prefix, replace_char, replace_char_exec, starts_with_chars, string_from_chars};

verus! {

/// The escaped form of one pointer segment: `~` becomes `~0`, then `/`
/// becomes `~1`.
pub open spec fn escaped_segment(s: Seq<char>) -> Seq<char> {
    replace_char(replace_char(s, '~', seq!['~', '0']), '/', seq!['~', '1'])
}

/// Escape a single JSON Pointer (RFC 6901) segment.
///
/// `~` is replaced with `~0` first, then `/` with `~1`; the other order
/// would re-escape the `~` of each `~1`. Apply this only to segments built
/// from a user-chosen key (a property, pattern-property, dependent-schema or
/// definition name).
pub fn escape_pointer_segment(segment: &str) -> (r: String)
    ensures
        r@ == escaped_segment(segment@),
{
    let chars = chars_of(segment);
    let zero = vec!['~', '0'];
    let one = vec!['~', '1'];
    assert(zero@ =~= seq!['~', '0']);
    assert(one@ =~= seq!['~', '1']);
    let tilde = replace_char_exec(&chars, '~', &zero);
    let slash = replace_char_exec(&tilde, '/', &one);
    string_from_chars(&slash)
}

proof fn lemma_replace_removes(s: Seq<char>, c: char, rep: Seq<char>)
    requires
        !rep.contains(c),
    ensures
        !replace_char(s, c, rep).contains(c),
    decreases s.len(),
{
    if s.len() > 0 {
        lemma_replace_removes(s.drop_last(), c, rep);
        let front = replace_char(s.drop_last(), c, rep);
        let tail = if s.last() == c { rep } else { seq![s.last()] };
        assert forall|i: int| 0 <= i < (front + tail).len() implies (front + tail)[i] != c by {
            if i >= front.len() {
                assert((front + tail)[i] == tail[i - front.len()]);
            } else {
                assert((front + tail)[i] == front[i]);
            }
        }
    }
}

proof fn lemma_replace_absent(s: Seq<char>, c: char, rep: Seq<char>)
    requires
        !s.contains(c),
    ensures
        replace_char(s, c, rep) == s,
    decreases s.len(),
{
    if s.len() > 0 {
        assert(!s.drop_last().contains(c)) by {
            if s.drop_last().contains(c) {
                let j = choose|j: int| 0 <= j < s.drop_last().len() && s.drop_last()[j] == c;
                assert(s[j] == c);
            }
        }
        lemma_replace_absent(s.drop_last(), c, rep);
        assert(s.last() != c) by {
            assert(s[s.len() - 1] == s.last());
        }
        assert(s.drop_last() + seq![s.last()] =~= s);
    }
}

/// An escaped segment holds no `/`, so a pointer built from escaped
/// segments splits at `/` exactly between them; and a segment without `~`
/// or `/` is its own escape.
pub proof fn lemma_escaped_segment(s: Seq<char>)
    ensures
        !escaped_segment(s).contains('/'),
        !s.contains('~') && !s.contains('/') ==> escaped_segment(s) == s,
{
    assert(!seq!['~', '1'].contains('/')) by {
        if seq!['~', '1'].contains('/') {
            let j = choose|j: int| 0 <= j < 2 && seq!['~', '1'][j] == '/';
        }
    }
    lemma_replace_removes(replace_char(s, '~', seq!['~', '0']), '/', seq!['~', '1']);
    if !s.contains('~') && !s.contains('/') {
        lemma_replace_absent(s, '~', seq!['~', '0']);
        lemma_replace_absent(s, '/', seq!['~', '1']);
    }
}

/// RFC 6901 decoding of one segment: `~1` gives `/`, `~0` gives `~`, any
/// other character stands for itself.
pub open spec fn unescaped_segment(s: Seq<char>) -> Seq<char>
    decreases s.len(),
{
    if s.len() == 0 {
        Seq::empty()
    } else if s.len() >= 2 && s[0] == '~' && s[1] == '1' {
        seq!['/'] + unescaped_segment(s.skip(2))
    } else if s.len() >= 2 && s[0] == '~' && s[1] == '0' {
        seq!['~'] + unescaped_segment(s.skip(2))
    } else {
        seq![s[0]] + unescaped_segment(s.skip(1))
    }
}

/// The escape of a single character.
pub open spec fn escaped_char(c: char) -> Seq<char> {
    if c == '~' {
        seq!['~', '0']
    } else if c == '/' {
        seq!['~', '1']
    } else {
        seq![c]
    }
}

proof fn lemma_replace_concat(a: Seq<char>, b: Seq<char>, c: char, rep: Seq<char>)
    ensures
        replace_char(a + b, c, rep) == replace_char(a, c, rep) + replace_char(b, c, rep),
    decreases b.len(),
{
    if b.len() == 0 {
        assert(a + b =~= a);
        assert(replace_char(a, c, rep) + replace_char(b, c, rep) =~= replace_char(a, c, rep));
    } else {
        assert((a + b).drop_last() =~= a + b.drop_last());
        assert((a + b).last() == b.last());
        lemma_replace_concat(a, b.drop_last(), c, rep);
        let tail = if b.last() == c { rep } else { seq![b.last()] };
        assert(replace_char(a, c, rep) + replace_char(b.drop_last(), c, rep) + tail =~= replace_char(a, c, rep) + (
        replace_char(b.drop_last(), c, rep) + tail));
    }
}

proof fn lemma_replace_single(x: char, c: char, rep: Seq<char>)
    ensures
        replace_char(seq![x], c, rep) == if x == c { rep } else { seq![x] },
{
    assert(seq![x].drop_last() =~= Seq::<char>::empty());
    assert(seq![x].last() == x);
    assert(replace_char(Seq::<char>::empty(), c, rep) =~= Seq::<char>::empty());
    if x == c {
        assert(Seq::<char>::empty() + rep =~= rep);
    } else {
        assert(Seq::<char>::empty() + seq![x] =~= seq![x]);
    }
}

proof fn lemma_escaped_front(x: char, t: Seq<char>)
    ensures
        escaped_segment(seq![x] + t) == escaped_char(x) + escaped_segment(t),
{
    let zero = seq!['~', '0'];
    let one = seq!['~', '1'];
    lemma_replace_concat(seq![x], t, '~', zero);
    lemma_replace_single(x, '~', zero);
    let r1 = replace_char(seq![x], '~', zero);
    lemma_replace_concat(r1, replace_char(t, '~', zero), '/', one);
    if x == '~' {
        assert(zero =~= seq!['~'] + seq!['0']);
        lemma_replace_concat(seq!['~'], seq!['0'], '/', one);
        lemma_replace_single('~', '/', one);
        lemma_replace_single('0', '/', one);
        assert(replace_char(zero, '/', one) =~= zero);
    } else {
        lemma_replace_single(x, '/', one);
    }
}

proof fn lemma_unescape_escaped(s: Seq<char>)
    ensures
        unescaped_segment(escaped_segment(s)) == s,
    decreases s.len(),
{
    if s.len() == 0 {
        assert(escaped_segment(s) =~= Seq::<char>::empty());
    } else {
        let x = s[0];
        let t = s.drop_first();
        assert(s =~= seq![x] + t);
        lemma_escaped_front(x, t);
        lemma_unescape_escaped(t);
        let e = escaped_char(x) + escaped_segment(t);
        if x == '~' || x == '/' {
            assert(e.skip(2) =~= escaped_segment(t));
        } else {
            assert(e.skip(1) =~= escaped_segment(t));
        }
        assert(seq![x] + t =~= s);
    }
}

/// Decoding an escaped segment gives the segment back: the escape loses
/// nothing, and a pointer built from escaped segments names its keys.
pub proof fn lemma_escape_round_trip(s: Seq<char>)
    ensures
        unescaped_segment(escaped_segment(s)) == s,
        !escaped_segment(s).contains('/'),
{
    lemma_unescape_escaped(s);
    lemma_escaped_segment(s);
}

/// The pointer is exactly `/$defs/<name>` or `/definitions/<name>` with a
/// non-empty name holding no `/`.
pub open spec fn defs_entry_pointer(p: Seq<char>) -> bool {
    let defs = seq!['/', '$', 'd', 'e', 'f', 's', '/'];
    let definitions = seq!['/', 'd', 'e', 'f', 'i', 'n', 'i', 't', 'i', 'o', 'n', 's', '/'];
    let rest = if p.len() >= defs.len() && p.take(defs.len() as int) == defs {
        Some(p.skip(defs.len() as int))
    } else if p.len() >= definitions.len() && p.take(definitions.len() as int) == definitions {
        Some(p.skip(definitions.len() as int))
    } else {
        None
    };
    match rest {
        Some(r) => r.len() > 0 && !r.contains('/'),
        None => false,
    }
}


/// True for a top-level `$defs`/`definitions` entry: a pointer of exactly
/// the shape `/$defs/<name>` or `/definitions/<name>` with no further
/// segment.
pub fn is_defs_entry(pointer: &str) -> (r: bool)
    ensures
        r == defs_entry_pointer(pointer@),
{
    let p = chars_of(pointer);
    let defs = vec!['/', '$', 'd', 'e', 'f', 's', '/'];
    let definitions = vec!['/', 'd', 'e', 'f', 'i', 'n', 'i', 't', 'i', 'o', 'n', 's', '/'];
    assert(defs@ =~= seq!['/', '$', 'd', 'e', 'f', 's', '/']);
    assert(definitions@ =~= seq!['/', 'd', 'e', 'f', 'i', 'n', 'i', 't', 'i', 'o', 'n', 's', '/']);
    let start = if starts_with_chars(&p, &defs) {
        defs.len()
    } else if starts_with_chars(&p, &definitions) {
        definitions.len()
    } else {
        return false;
    };
    if start == p.len() {
        return false;
    }
    assert(defs_entry_pointer(pointer@) == (p@.skip(start as int).len() > 0 && !p@.skip(start as int).contains('/')));
    let mut i = start;
    while i < p.len()
        invariant
            start <= i <= p.len(),
            defs_entry_pointer(pointer@) == (p@.skip(start as int).len() > 0 && !p@.skip(start as int).contains('/')),
            forall|j: int| start <= j < i ==> p@[j] != '/',
        decreases p.len() - i,
    {
        if p[i] == '/' {
            assert(p@.skip(start as int)[i - start] == '/');
            return false;
        }
        i = i + 1;
    }
    assert forall|j: int| 0 <= j < p@.skip(start as int).len() implies p@.skip(start as int)[j] != '/' by {
        assert(p@.skip(start as int)[j] == p@[start + j]);
    }
    true
}

} // verus!
