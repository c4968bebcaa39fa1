use vstd::prelude::*;
use vstd::string::*;

verus! {

/// The pieces of `s` between occurrences of `sep`, as `str::split` yields
/// them: `n` separators give `n + 1` pieces, some of which may be empty.
pub open spec fn split_spec(s: Seq<char>, sep: char) -> Seq<Seq<char>>
    decreases s.len(),
{
    if s.len() == 0 {
        seq![Seq::<char>::empty()]
    } else {
        let init = split_spec(s.drop_last(), sep);
        if s.last() == sep {
            init.push(Seq::<char>::empty())
        } else {
            init.update(init.len() - 1, init.last().push(s.last()))
        }
    }
}

/// A line without the carriage return that ends it, if one does.
pub open spec fn strip_cr(l: Seq<char>) -> Seq<char> {
    if l.len() > 0 && l.last() == '\r' {
        l.drop_last()
    } else {
        l
    }
}

/// The lines of `s`, as `str::lines` yields them: split at `\n`, with a
/// `\r` right before the `\n` removed, and no empty line after a final `\n`.
pub open spec fn lines_spec(s: Seq<char>) -> Seq<Seq<char>> {
    let p = split_spec(s, '\n');
    let ended = p.drop_last().map_values(|l: Seq<char>| strip_cr(l));
    if p.last().len() == 0 {
        ended
    } else {
        ended.push(p.last())
    }
}

pub proof fn lemma_split_nonempty(s: Seq<char>, sep: char)
    ensures
        split_spec(s, sep).len() >= 1,
    decreases s.len(),
{
    if s.len() > 0 {
        lemma_split_nonempty(s.drop_last(), sep);
    }
}

/// Splits `s` at every `sep`.
pub fn split_chars(s: &str, sep: char) -> (r: Vec<String>)
    ensures
        r@.map_values(|p: String| p@) == split_spec(s@, sep),
{
    let n = s.unicode_len();
    let mut pieces: Vec<String> = Vec::new();
    let mut start: usize = 0;
    let mut i: usize = 0;
    assert(s@.subrange(0, 0) =~= Seq::<char>::empty());
    assert(pieces@.map_values(|p: String| p@).push(s@.subrange(0, 0)) =~= split_spec(
        s@.subrange(0, 0),
        sep,
    ));
    while i < n
        invariant
            n == s@.len(),
            start <= i <= n,
            pieces@.map_values(|p: String| p@).push(s@.subrange(start as int, i as int))
                == split_spec(s@.subrange(0, i as int), sep),
        decreases n - i,
    {
        let c = s.get_char(i);
        let ghost prev = s@.subrange(0, i as int);
        let ghost next = s@.subrange(0, i + 1);
        assert(next.drop_last() == prev);
        assert(next.last() == c);
        if c == sep {
            let piece = s.substring_char(start, i).to_owned();
            pieces.push(piece);
            start = i + 1;
            assert(s@.subrange(start as int, i + 1) =~= Seq::<char>::empty());
            assert(pieces@.map_values(|p: String| p@).push(s@.subrange(start as int, i + 1))
                =~= split_spec(next, sep));
        } else {
            proof { lemma_split_nonempty(prev, sep); }
            assert(s@.subrange(start as int, i + 1) =~= s@.subrange(start as int, i as int).push(c));
            assert(pieces@.map_values(|p: String| p@).push(s@.subrange(start as int, i + 1))
                =~= split_spec(next, sep));
        }
        i = i + 1;
    }
    let last = s.substring_char(start, n).to_owned();
    pieces.push(last);
    assert(s@.subrange(0, n as int) =~= s@);
    assert(pieces@.map_values(|p: String| p@) =~= split_spec(s@, sep));
    pieces
}

/// `l` without a final carriage return.
fn drop_cr(l: String) -> (r: String)
    ensures
        r@ == strip_cr(l@),
{
    let n = l.as_str().unicode_len();
    if n > 0 && l.as_str().get_char(n - 1) == '\r' {
        l.as_str().substring_char(0, n - 1).to_owned()
    } else {
        l
    }
}

/// The lines of `s`, with the same line endings as `str::lines`.
pub fn split_lines(s: &str) -> (r: Vec<String>)
    ensures
        r@.map_values(|l: String| l@) == lines_spec(s@),
{
    let mut pieces = split_chars(s, '\n');
    let ghost p = split_spec(s@, '\n');
    proof {
        lemma_split_nonempty(s@, '\n');
    }
    let last = pieces.pop().unwrap();
    assert(pieces@.map_values(|l: String| l@) =~= p.drop_last());
    let mut out: Vec<String> = Vec::new();
    let k = pieces.len();
    let mut i: usize = 0;
    while i < k
        invariant
            k == pieces@.len(),
            i <= k,
            p.len() >= 1,
            pieces@.map_values(|l: String| l@) == p.drop_last(),
            out@.map_values(|l: String| l@) == p.drop_last().subrange(0, i as int).map_values(
                |l: Seq<char>| strip_cr(l),
            ),
        decreases k - i,
    {
        let line = drop_cr(pieces[i].clone());
        let ghost before = out@;
        out.push(line);
        proof {
            assert(pieces@.map_values(|l: String| l@)[i as int] == pieces@[i as int]@);
            assert(line@ == strip_cr(p.drop_last()[i as int]));
            assert(out@ == before.push(line));
            assert(out@.map_values(|l: String| l@) =~= before.map_values(|l: String| l@).push(
                line@,
            ));
        }
        assert(out@.map_values(|l: String| l@) =~= p.drop_last().subrange(0, i + 1).map_values(
            |l: Seq<char>| strip_cr(l),
        ));
        i = i + 1;
    }
    assert(p.drop_last().subrange(0, k as int) =~= p.drop_last());
    if last.as_str().unicode_len() > 0 {
        out.push(last);
        assert(out@.map_values(|l: String| l@) =~= lines_spec(s@));
    } else {
        assert(out@.map_values(|l: String| l@) =~= lines_spec(s@));
    }
    out
}

} // verus!
