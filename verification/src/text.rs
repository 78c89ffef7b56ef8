//! Character-level helpers shared by the path, tag, template and loader code.

use vstd::prelude::*;
use vstd::std_specs::iter::IteratorSpec;

verus! {

/// `String::push` appends one character to the end of the string.
pub assume_specification[ std::string::String::push ](s: &mut std::string::String, c: char)
    ensures
        final(s)@ == old(s)@.push(c),
;

/// The characters of `s`, in order.
pub fn chars_of(s: &str) -> (v: Vec<char>)
    ensures
        v@ == s@,
{
    let mut v: Vec<char> = Vec::new();
    let it = s.chars();
    for c in iter: it
        invariant
            v@ == iter.seq().take(iter.index() as int),
            iter.seq() == s@,
    {
        v.push(c);
    }
    v
}

/// The string made of `v[from..to]`.
pub fn string_of(v: &Vec<char>, from: usize, to: usize) -> (s: String)
    requires
        from <= to <= v@.len(),
    ensures
        s@ == v@.subrange(from as int, to as int),
{
    let mut s = String::new();
    let mut i: usize = from;
    while i < to
        invariant
            from <= i <= to <= v@.len(),
            s@ == v@.subrange(from as int, i as int),
        decreases to - i,
    {
        s.push(v[i]);
        i += 1;
        assert(v@.subrange(from as int, i as int) == v@.subrange(from as int, i - 1).push(
            v@[i - 1],
        ));
    }
    s
}

/// `pat` occurs in `s` at offset `i`.
pub open spec fn occurs_at(s: Seq<char>, pat: Seq<char>, i: int) -> bool {
    &&& 0 <= i
    &&& i + pat.len() <= s.len()
    &&& s.subrange(i, i + pat.len()) == pat
}

/// `i` is the leftmost offset at which `pat` occurs in `s`.
pub open spec fn first_occurrence(s: Seq<char>, pat: Seq<char>, i: int) -> bool {
    &&& occurs_at(s, pat, i)
    &&& forall|j: int| 0 <= j < i ==> !occurs_at(s, pat, j)
}

/// The pieces of `s` between the non-overlapping occurrences of `sep`, found
/// from the left. There is always at least one piece; pieces may be empty.
pub open spec fn split(s: Seq<char>, sep: Seq<char>) -> Seq<Seq<char>>
    decreases s.len(),
{
    if sep.len() > 0 && exists|i: int| first_occurrence(s, sep, i) {
        let i = choose|i: int| first_occurrence(s, sep, i);
        seq![s.take(i)] + split(s.skip(i + sep.len()), sep)
    } else {
        seq![s]
    }
}

/// The pieces joined again, with `sep` between neighbours.
pub open spec fn join(parts: Seq<Seq<char>>, sep: Seq<char>) -> Seq<char>
    decreases parts.len(),
{
    if parts.len() == 0 {
        Seq::empty()
    } else if parts.len() == 1 {
        parts[0]
    } else {
        join(parts.drop_last(), sep) + sep + parts.last()
    }
}

/// The views of a vector of strings.
pub open spec fn views(v: Seq<String>) -> Seq<Seq<char>> {
    Seq::new(v.len(), |i: int| v[i]@)
}

/// Whether `pat` occurs in `v` at offset `at`.
pub fn matches_at(v: &Vec<char>, pat: &Vec<char>, at: usize) -> (r: bool)
    requires
        at <= v@.len(),
    ensures
        r == occurs_at(v@, pat@, at as int),
{
    if pat.len() > v.len() - at {
        return false;
    }
    let mut k: usize = 0;
    while k < pat.len()
        invariant
            at + pat@.len() <= v@.len() <= usize::MAX,
            k <= pat@.len(),
            v@.subrange(at as int, at + k) == pat@.take(k as int),
        decreases pat@.len() - k,
    {
        if v[at + k] != pat[k] {
            assert(v@.subrange(at as int, at + pat@.len())[k as int] != pat@[k as int]);
            return false;
        }
        k += 1;
        assert(v@.subrange(at as int, at + k) == v@.subrange(at as int, at + k - 1).push(
            v@[at + k - 1],
        ));
        assert(pat@.take(k as int) == pat@.take(k - 1).push(pat@[k - 1]));
    }
    assert(pat@.take(pat@.len() as int) == pat@);
    true
}

/// Whether `v` begins with `pat`.
pub fn starts_with(v: &Vec<char>, pat: &Vec<char>) -> (r: bool)
    ensures
        r == pat@.is_prefix_of(v@),
{
    let r = matches_at(v, pat, 0);
    proof {
        if pat@.len() <= v@.len() {
            assert(v@.subrange(0, pat@.len() as int) == v@.take(pat@.len() as int));
        }
    }
    r
}

/// When `pat` first occurs in `t` at offset `i`, and `t` is `s` without its
/// first `start` characters, the split of `t` is the piece before the
/// occurrence followed by the split of what comes after it.
proof fn lemma_split_step(s: Seq<char>, sep: Seq<char>, start: int, pos: int)
    requires
        sep.len() > 0,
        0 <= start <= pos,
        occurs_at(s, sep, pos),
        forall|j: int| start <= j < pos ==> !occurs_at(s, sep, j),
    ensures
        split(s.skip(start), sep) == seq![s.subrange(start, pos)] + split(
            s.skip(pos + sep.len()),
            sep,
        ),
{
    let t = s.skip(start);
    let i = pos - start;
    assert forall|j: int| 0 <= j implies occurs_at(t, sep, j) == occurs_at(s, sep, start + j) by {
        if j + sep.len() <= t.len() {
            assert(t.subrange(j, j + sep.len()) =~= s.subrange(start + j, start + j + sep.len()));
        }
    }
    assert(first_occurrence(t, sep, i));
    let c = choose|c: int| first_occurrence(t, sep, c);
    assert(c == i) by {
        if c < i {
            assert(!occurs_at(t, sep, c));
        }
        if i < c {
            assert(!occurs_at(t, sep, i));
        }
    }
    assert(t.take(i) == s.subrange(start, pos));
    assert(t.skip(i + sep.len()) == s.skip(pos + sep.len()));
}

/// When `sep` occurs nowhere in `s` from `start` on, the rest is one piece.
proof fn lemma_split_last(s: Seq<char>, sep: Seq<char>, start: int)
    requires
        0 <= start <= s.len(),
        forall|j: int| start <= j ==> !occurs_at(s, sep, j),
    ensures
        split(s.skip(start), sep) == seq![s.skip(start)],
{
    let t = s.skip(start);
    assert forall|j: int| !first_occurrence(t, sep, j) by {
        if occurs_at(t, sep, j) {
            assert(t.subrange(j, j + sep.len()) =~= s.subrange(start + j, start + j + sep.len()));
            assert(occurs_at(s, sep, start + j));
        }
    }
}

/// Splits `v` at every occurrence of `sep`, scanning from the left.
pub fn split_chars(v: &Vec<char>, sep: &Vec<char>) -> (parts: Vec<String>)
    requires
        sep@.len() > 0,
    ensures
        views(parts@) == split(v@, sep@),
        parts@.len() >= 1,
{
    let mut parts: Vec<String> = Vec::new();
    let mut start: usize = 0;
    let mut pos: usize = 0;
    assert(v@.skip(0) == v@);
    assert(views(parts@) == Seq::<Seq<char>>::empty());
    while pos < v.len()
        invariant
            sep@.len() > 0,
            start <= pos <= v@.len(),
            forall|j: int| start <= j < pos ==> !occurs_at(v@, sep@, j),
            split(v@, sep@) == views(parts@) + split(v@.skip(start as int), sep@),
        decreases v@.len() - pos,
    {
        if matches_at(v, sep, pos) {
            let piece = string_of(v, start, pos);
            proof {
                lemma_split_step(v@, sep@, start as int, pos as int);
                assert(views(parts@.push(piece)) == views(parts@) + seq![piece@]);
            }
            parts.push(piece);
            pos = pos + sep.len();
            start = pos;
        } else {
            pos += 1;
        }
    }
    let piece = string_of(v, start, v.len());
    proof {
        assert forall|j: int| start <= j implies !occurs_at(v@, sep@, j) by {
            if j >= pos {
                assert(j + sep@.len() > v@.len());
            }
        }
        lemma_split_last(v@, sep@, start as int);
        assert(v@.subrange(start as int, v@.len() as int) == v@.skip(start as int));
        assert(views(parts@.push(piece)) == views(parts@) + seq![piece@]);
    }
    parts.push(piece);
    parts
}

/// Appends the characters of `piece` to `out`.
pub fn append_str(out: &mut Vec<char>, piece: &str)
    ensures
        final(out)@ == old(out)@ + piece@,
{
    let it = piece.chars();
    for c in iter: it
        invariant
            out@ == old(out)@ + iter.seq().take(iter.index() as int),
            iter.seq() == piece@,
    {
        out.push(c);
        assert(iter.seq().take(iter.index() + 1) == iter.seq().take(iter.index() as int).push(c));
    }
    assert(piece@.take(piece@.len() as int) == piece@);
}

/// Joins `parts` with `sep` between neighbours.
pub fn join_strings(parts: &Vec<String>, sep: &str) -> (s: String)
    ensures
        s@ == join(views(parts@), sep@),
{
    let mut out: Vec<char> = Vec::new();
    let mut i: usize = 0;
    while i < parts.len()
        invariant
            i <= parts@.len(),
            out@ == join(views(parts@).take(i as int), sep@),
        decreases parts@.len() - i,
    {
        if i > 0 {
            append_str(&mut out, sep);
        }
        append_str(&mut out, parts[i].as_str());
        proof {
            let all = views(parts@);
            let now = all.take(i + 1);
            assert(now.drop_last() == all.take(i as int));
            assert(now.last() == parts@[i as int]@);
            if i == 0 {
                assert(Seq::<char>::empty() + parts@[0]@ == parts@[0]@);
            }
        }
        i += 1;
    }
    assert(views(parts@).take(parts@.len() as int) == views(parts@));
    string_of(&out, 0, out.len())
}

/// What `str::to_lowercase` makes of a string.
pub uninterp spec fn lowercased(s: Seq<char>) -> Seq<char>;

/// What `str::to_uppercase` makes of a string.
pub uninterp spec fn uppercased(s: Seq<char>) -> Seq<char>;

/// `str::to_lowercase` gives the lowercase equivalent of a string, as
/// Unicode defines it; the result depends on the string alone.
#[verifier::external_body]
pub(crate) fn lowercase(s: &str) -> (r: String)
    ensures
        r@ == lowercased(s@),
{
    s.to_lowercase()
}

/// `str::to_uppercase` gives the uppercase equivalent of a string, as
/// Unicode defines it; the result depends on the string alone.
#[verifier::external_body]
pub(crate) fn uppercase(s: &str) -> (r: String)
    ensures
        r@ == uppercased(s@),
{
    s.to_uppercase()
}

/// `s` with every occurrence of `from` replaced by `to`, the occurrences
/// found from the left and not overlapping.
pub open spec fn replaced(s: Seq<char>, from: Seq<char>, to: Seq<char>) -> Seq<char> {
    join(split(s, from), to)
}

/// Replaces every occurrence of `from` in `s` by `to`.
pub fn replace(s: &str, from: &str, to: &str) -> (r: String)
    requires
        from@.len() > 0,
    ensures
        r@ == replaced(s@, from@, to@),
{
    let v = chars_of(s);
    let f = chars_of(from);
    let parts = split_chars(&v, &f);
    join_strings(&parts, to)
}

/// How many characters of `s` stand before its first `c`; the length of
/// `s` where it holds no `c`.
pub open spec fn offset_of(s: Seq<char>, c: char) -> nat
    decreases s.len(),
{
    if s.len() == 0 || s[0] == c {
        0
    } else {
        1 + offset_of(s.drop_first(), c)
    }
}

/// The offset of the first `c` in `v[from..]`, counted from `from`.
pub fn find_char(v: &Vec<char>, from: usize, c: char) -> (at: usize)
    requires
        from <= v@.len(),
    ensures
        at == offset_of(v@.skip(from as int), c),
        from + at <= v@.len(),
{
    let mut i: usize = from;
    assert(v@.skip(from as int).skip(0) == v@.skip(from as int));
    while i < v.len() && v[i] != c
        invariant
            from <= i <= v@.len(),
            offset_of(v@.skip(from as int), c) == (i - from) + offset_of(v@.skip(i as int), c),
        decreases v@.len() - i,
    {
        proof {
            let rest = v@.skip(i as int);
            assert(rest.drop_first() == v@.skip(i + 1));
        }
        i += 1;
    }
    i - from
}

} // verus!
