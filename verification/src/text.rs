use vstd::prelude::*;
use crate::order::string_views;

verus! {

/// The characters of `s`, in order.
pub fn chars_of(s: &str) -> (v: Vec<char>)
    ensures
        v@ == s@,
{
    let mut v: Vec<char> = Vec::new();
    for c in it: s.chars()
        invariant
            v@ == it.seq().take(it.index() as int),
    {
        v.push(c);
    }
    v
}

/// The pieces of `s` between occurrences of `sep`, as `str::split` with a
/// `char` pattern yields them: `n` separators give `n + 1` pieces, some of
/// which may be empty.
pub open spec fn split_on(s: Seq<char>, sep: char) -> Seq<Seq<char>>
    decreases s.len(),
{
    if s.len() == 0 {
        seq![Seq::empty()]
    } else {
        let init = split_on(s.drop_last(), sep);
        if s.last() == sep {
            init.push(Seq::empty())
        } else {
            init.update(init.len() - 1, init.last().push(s.last()))
        }
    }
}

/// Splitting always gives at least one piece.
pub proof fn lemma_split_on_nonempty(s: Seq<char>, sep: char)
    ensures
        split_on(s, sep).len() >= 1,
    decreases s.len(),
{
    if s.len() > 0 {
        lemma_split_on_nonempty(s.drop_last(), sep);
    }
}

/// Splits `s` at every `sep`, as `s.split(sep)` does.
pub fn split_str(s: &str, sep: char) -> (parts: Vec<String>)
    ensures
        string_views(parts@) == split_on(s@, sep),
{
    let cs = chars_of(s);
    let mut parts: Vec<String> = Vec::new();
    let mut start: usize = 0;
    let mut i: usize = 0;
    assert(s@.take(0) =~= Seq::<char>::empty());
    assert(string_views(parts@) + seq![s@.subrange(0, 0)] =~= split_on(s@.take(0), sep));
    while i < cs.len()
        invariant
            start <= i <= cs.len(),
            cs@ == s@,
            string_views(parts@) + seq![s@.subrange(start as int, i as int)] == split_on(
                s@.take(i as int),
                sep,
            ),
        decreases cs.len() - i,
    {
        let ghost prefix = s@.take(i as int);
        assert(s@.take(i + 1).drop_last() =~= prefix);
        assert(s@.take(i + 1).last() == cs@[i as int]);
        proof {
            lemma_split_on_nonempty(prefix, sep);
        }
        if cs[i] == sep {
            let piece = s.substring_char(start, i).to_owned();
            parts.push(piece);
            assert(string_views(parts@) =~= string_views(parts@.drop_last()) + seq![
                s@.subrange(start as int, i as int),
            ]);
            start = i + 1;
            assert(s@.subrange(start as int, i + 1) =~= Seq::<char>::empty());
            assert(split_on(s@.take(i + 1), sep) == split_on(prefix, sep).push(Seq::empty()));
            assert(string_views(parts@) + seq![s@.subrange(start as int, i + 1)] =~= split_on(
                s@.take(i + 1),
                sep,
            ));
        } else {
            assert(s@.subrange(start as int, i + 1) =~= s@.subrange(start as int, i as int).push(
                cs[i as int],
            ));
            assert(string_views(parts@) + seq![s@.subrange(start as int, i + 1)] =~= split_on(
                s@.take(i + 1),
                sep,
            ));
        }
        i = i + 1;
    }
    let last = s.substring_char(start, cs.len()).to_owned();
    let ghost before = parts@;
    parts.push(last);
    assert(s@.take(cs.len() as int) =~= s@);
    assert(string_views(parts@) =~= string_views(before) + seq![
        s@.subrange(start as int, cs.len() as int),
    ]);
    parts
}

} // verus!
