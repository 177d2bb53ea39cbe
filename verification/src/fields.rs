//! Text cut into fields at a separator.
//!
//! `split` and `join` are inverse to each other on fields that hold no
//! separator; the lemmas below prove it. `field_ranges` is the executable
//! `split`.

use vstd::prelude::*;

verus! {

/// Whether the separator `sep` does not occur in `t`.
pub open spec fn free_of(t: Seq<char>, sep: char) -> bool {
    forall|i: int| 0 <= i < t.len() ==> #[trigger] t[i] != sep
}

/// Whether `sep` occurs in none of the fields `fs`.
pub open spec fn all_free_of(fs: Seq<Seq<char>>, sep: char) -> bool {
    forall|i: int| 0 <= i < fs.len() ==> free_of(#[trigger] fs[i], sep)
}

/// The fields of `s`: the stretches of text between one occurrence of `sep`
/// and the next. There is always at least one field, and a field may be
/// empty.
pub open spec fn split(s: Seq<char>, sep: char) -> Seq<Seq<char>>
    decreases s.len(),
{
    if s.len() == 0 {
        seq![Seq::<char>::empty()]
    } else {
        let front = split(s.drop_last(), sep);
        if s.last() == sep {
            front.push(Seq::<char>::empty())
        } else {
            front.update(front.len() - 1, front.last().push(s.last()))
        }
    }
}

/// The fields `fs` written one after the other with `sep` between them.
pub open spec fn join(fs: Seq<Seq<char>>, sep: char) -> Seq<char>
    decreases fs.len(),
{
    if fs.len() == 0 {
        Seq::<char>::empty()
    } else if fs.len() == 1 {
        fs[0]
    } else {
        join(fs.drop_last(), sep).push(sep) + fs.last()
    }
}

/// The stretches of `t` that the index pairs `r` delimit.
pub open spec fn range_texts(t: Seq<char>, r: Seq<(usize, usize)>) -> Seq<Seq<char>> {
    Seq::new(r.len(), |i: int| t.subrange(r[i].0 as int, r[i].1 as int))
}

/// Whether each index pair of `r` delimits a stretch between `lo` and `hi`.
pub open spec fn ranges_within(r: Seq<(usize, usize)>, lo: int, hi: int) -> bool {
    forall|i: int| 0 <= i < r.len() ==> lo <= (#[trigger] r[i]).0 <= r[i].1 <= hi
}

/// Splitting gives at least one field, and no field holds the separator.
pub proof fn lemma_split_fields(s: Seq<char>, sep: char)
    ensures
        split(s, sep).len() >= 1,
        all_free_of(split(s, sep), sep),
    decreases s.len(),
{
    if s.len() > 0 {
        lemma_split_fields(s.drop_last(), sep);
        let front = split(s.drop_last(), sep);
        assert forall|i: int| 0 <= i < split(s, sep).len() implies free_of(
            #[trigger] split(s, sep)[i],
            sep,
        ) by {
            if i < front.len() - 1 {
                assert(split(s, sep)[i] == front[i]);
            } else if s.last() != sep {
                assert(free_of(front.last(), sep));
            }
        }
    }
}

/// Joining the fields of a text gives the text back.
pub proof fn lemma_join_split(s: Seq<char>, sep: char)
    ensures
        join(split(s, sep), sep) == s,
    decreases s.len(),
{
    if s.len() > 0 {
        let init = s.drop_last();
        lemma_join_split(init, sep);
        lemma_split_fields(init, sep);
        let front = split(init, sep);
        let fs = split(s, sep);
        if s.last() == sep {
            assert(fs.drop_last() =~= front);
            assert(join(fs, sep) =~= s);
        } else {
            let grown = front.last().push(s.last());
            if front.len() == 1 {
                assert(join(fs, sep) =~= s);
            } else {
                assert(fs.drop_last() =~= front.drop_last());
                assert(fs.last() == grown);
                assert(join(front, sep) == join(front.drop_last(), sep).push(sep) + front.last());
                assert(join(fs, sep) == join(fs.drop_last(), sep).push(sep) + grown);
                assert(join(fs, sep) =~= init.push(s.last()));
                assert(init.push(s.last()) =~= s);
            }
        }
    }
}

/// A text that holds no separator is its own single field.
pub proof fn lemma_split_free(t: Seq<char>, sep: char)
    requires
        free_of(t, sep),
    ensures
        split(t, sep) == seq![t],
    decreases t.len(),
{
    if t.len() == 0 {
        assert(t =~= Seq::<char>::empty());
    } else {
        lemma_split_free(t.drop_last(), sep);
        assert(t.drop_last().push(t.last()) =~= t);
        assert(split(t, sep) =~= seq![t]);
    }
}

/// A separator followed by a text that holds none adds that text as one more
/// field.
pub proof fn lemma_split_append(x: Seq<char>, t: Seq<char>, sep: char)
    requires
        free_of(t, sep),
    ensures
        split(x.push(sep) + t, sep) == split(x, sep).push(t),
    decreases t.len(),
{
    let whole = x.push(sep) + t;
    if t.len() == 0 {
        assert(whole =~= x.push(sep));
        assert(whole.drop_last() =~= x);
        assert(t =~= Seq::<char>::empty());
    } else {
        lemma_split_append(x, t.drop_last(), sep);
        assert(whole.drop_last() =~= x.push(sep) + t.drop_last());
        assert(t.drop_last().push(t.last()) =~= t);
        assert(split(whole, sep) =~= split(x, sep).push(t));
    }
}

/// Splitting what was joined gives the fields back, provided there is at
/// least one field and none of them holds the separator.
pub proof fn lemma_split_join(fs: Seq<Seq<char>>, sep: char)
    requires
        fs.len() >= 1,
        all_free_of(fs, sep),
    ensures
        split(join(fs, sep), sep) == fs,
    decreases fs.len(),
{
    if fs.len() == 1 {
        lemma_split_free(fs[0], sep);
        assert(seq![fs[0]] =~= fs);
    } else {
        let init = fs.drop_last();
        assert forall|i: int| 0 <= i < init.len() implies free_of(#[trigger] init[i], sep) by {
            assert(init[i] == fs[i]);
        }
        lemma_split_join(init, sep);
        lemma_split_append(join(init, sep), fs.last(), sep);
        assert(init.push(fs.last()) =~= fs);
    }
}

/// Cuts the characters of `t` from `lo` up to `hi` into fields at each `sep`,
/// and returns where each field starts and ends.
pub(crate) fn field_ranges(t: &Vec<char>, lo: usize, hi: usize, sep: char) -> (r: Vec<(usize, usize)>)
    requires
        lo <= hi <= t.len(),
    ensures
        ranges_within(r@, lo as int, hi as int),
        range_texts(t@, r@) == split(t@.subrange(lo as int, hi as int), sep),
{
    let ghost x = t@.subrange(lo as int, hi as int);
    let mut r: Vec<(usize, usize)> = Vec::new();
    let mut start: usize = lo;
    let mut i: usize = lo;
    proof {
        assert(x.take(0) =~= Seq::<char>::empty());
        assert(t@.subrange(lo as int, lo as int) =~= Seq::<char>::empty());
        assert(range_texts(t@, r@).push(Seq::<char>::empty()) =~= seq![Seq::<char>::empty()]);
    }
    while i < hi
        invariant
            lo <= start <= i <= hi <= t.len(),
            x == t@.subrange(lo as int, hi as int),
            ranges_within(r@, lo as int, hi as int),
            split(x.take(i - lo), sep) == range_texts(t@, r@).push(
                t@.subrange(start as int, i as int),
            ),
        decreases hi - i,
    {
        let ghost before = x.take(i - lo);
        let ghost after = x.take(i - lo + 1);
        let ghost done = range_texts(t@, r@);
        let ghost open = t@.subrange(start as int, i as int);
        proof {
            assert(after.drop_last() =~= before);
            assert(after.last() == t@[i as int]);
        }
        if t[i] == sep {
            r.push((start, i));
            start = i + 1;
            proof {
                assert(range_texts(t@, r@) =~= done.push(open));
                assert(t@.subrange(start as int, i + 1) =~= Seq::<char>::empty());
            }
        } else {
            proof {
                assert(t@.subrange(start as int, i + 1) =~= open.push(t@[i as int]));
                assert(done.push(open).update(done.len() as int, open.push(t@[i as int]))
                    =~= done.push(open.push(t@[i as int])));
            }
        }
        i += 1;
    }
    proof {
        assert(x.take(hi - lo) =~= x);
    }
    let ghost done = range_texts(t@, r@);
    r.push((start, hi));
    proof {
        assert(range_texts(t@, r@) =~= done.push(t@.subrange(start as int, hi as int)));
    }
    r
}

} // verus!
