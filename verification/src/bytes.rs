//! Splitting byte text into pieces at a separator, and joining the pieces
//! back: the ground the header/body splitter and the pre-release identifier
//! parsing stand on.

use vstd::prelude::*;

verus! {

/// Splits a byte sequence at every occurrence of `sep`.
///
/// The result always holds at least one piece; a separator at the start, at
/// the end, or doubled produces an empty piece, exactly as the pieces of a
/// text file separated by newlines do.
pub open spec fn split_sep(s: Seq<u8>, sep: u8) -> Seq<Seq<u8>>
    decreases s.len(),
{
    if s.len() == 0 {
        seq![Seq::<u8>::empty()]
    } else if s[0] == sep {
        seq![Seq::<u8>::empty()] + split_sep(s.skip(1), sep)
    } else {
        let rest = split_sep(s.skip(1), sep);
        seq![seq![s[0]] + rest[0]] + rest.skip(1)
    }
}

pub proof fn lemma_split_sep_len(s: Seq<u8>, sep: u8)
    ensures
        split_sep(s, sep).len() >= 1,
    decreases s.len(),
{
    if s.len() == 0 {
    } else if s[0] == sep {
    } else {
        lemma_split_sep_len(s.skip(1), sep);
    }
}

/// Joins a sequence of byte pieces, putting `sep` between each two.
pub open spec fn join_sep(ls: Seq<Seq<u8>>, sep: u8) -> Seq<u8>
    decreases ls.len(),
{
    if ls.len() == 0 {
        Seq::<u8>::empty()
    } else if ls.len() == 1 {
        ls[0]
    } else {
        join_sep(ls.drop_last(), sep) + seq![sep] + ls.last()
    }
}

proof fn lemma_join_cons(x: Seq<u8>, ls: Seq<Seq<u8>>, sep: u8)
    requires
        ls.len() >= 1,
    ensures
        join_sep(seq![x] + ls, sep) == x + seq![sep] + join_sep(ls, sep),
    decreases ls.len(),
{
    let whole = seq![x] + ls;
    if ls.len() == 1 {
        assert(whole.len() == 2);
        assert(join_sep(whole, sep) == join_sep(whole.drop_last(), sep) + seq![sep]
            + whole.last());
        assert(whole.drop_last() =~= seq![x]);
        assert(join_sep(seq![x], sep) == seq![x][0]);
        assert(seq![x][0] == x);
        assert(whole.last() == ls[0]);
        assert(join_sep(ls, sep) == ls[0]);
    } else {
        assert(whole.drop_last() =~= seq![x] + ls.drop_last());
        lemma_join_cons(x, ls.drop_last(), sep);
        assert(whole.last() == ls.last());
        assert(x + seq![sep] + join_sep(ls.drop_last(), sep) + seq![sep] + ls.last() =~= x + seq![
            sep,
        ] + (join_sep(ls.drop_last(), sep) + seq![sep] + ls.last()));
    }
}

/// Splitting at a separator and joining the pieces with it again gives back
/// the input, byte for byte: the pieces carry the whole text.
pub proof fn lemma_join_split(s: Seq<u8>, sep: u8)
    ensures
        join_sep(split_sep(s, sep), sep) == s,
    decreases s.len(),
{
    if s.len() == 0 {
        assert(join_sep(split_sep(s, sep), sep) =~= s);
    } else if s[0] == sep {
        lemma_join_split(s.skip(1), sep);
        lemma_split_sep_len(s.skip(1), sep);
        lemma_join_cons(Seq::empty(), split_sep(s.skip(1), sep), sep);
        assert(Seq::empty() + seq![sep] + join_sep(split_sep(s.skip(1), sep), sep) =~= s) by {
            assert(Seq::<u8>::empty() + seq![sep] + s.skip(1) =~= s);
        }
    } else {
        let r = split_sep(s.skip(1), sep);
        lemma_join_split(s.skip(1), sep);
        lemma_split_sep_len(s.skip(1), sep);
        let whole = seq![seq![s[0]] + r[0]] + r.skip(1);
        if r.len() == 1 {
            assert(r.skip(1) =~= Seq::<Seq<u8>>::empty());
            assert(whole =~= seq![seq![s[0]] + r[0]]);
            assert(join_sep(whole, sep) == seq![s[0]] + r[0]);
            assert(join_sep(r, sep) == r[0]);
            assert(seq![s[0]] + s.skip(1) =~= s);
        } else {
            lemma_join_cons(seq![s[0]] + r[0], r.skip(1), sep);
            assert(join_sep(whole, sep) == seq![s[0]] + r[0] + seq![sep] + join_sep(
                r.skip(1),
                sep,
            ));
            assert(r =~= seq![r[0]] + r.skip(1));
            lemma_join_cons(r[0], r.skip(1), sep);
            assert(join_sep(r, sep) == r[0] + seq![sep] + join_sep(r.skip(1), sep));
            assert(seq![s[0]] + r[0] + seq![sep] + join_sep(r.skip(1), sep) =~= seq![s[0]] + (r[0]
                + seq![sep] + join_sep(r.skip(1), sep)));
            assert(seq![s[0]] + s.skip(1) =~= s);
        }
    }
}

/// The view of a vector of byte vectors, piece by piece.
pub open spec fn pieces_view(ls: Seq<Vec<u8>>) -> Seq<Seq<u8>> {
    ls.map_values(|p: Vec<u8>| p@)
}

/// The first piece of `ls` extended on the left by `pre`.
pub open spec fn shift_first(ls: Seq<Seq<u8>>, pre: Seq<u8>) -> Seq<Seq<u8>>
    recommends
        ls.len() >= 1,
{
    seq![pre + ls[0]] + ls.skip(1)
}

/// Splits a byte slice at every occurrence of `sep`.
pub fn split_bytes(s: &[u8], sep: u8) -> (r: Vec<Vec<u8>>)
    ensures
        pieces_view(r@) == split_sep(s@, sep),
        r@.len() >= 1,
{
    let ghost full: Seq<u8> = s@;
    let mut done: Vec<Vec<u8>> = Vec::new();
    let mut cur: Vec<u8> = Vec::new();
    let mut i: usize = 0;
    proof {
        assert(full.skip(0) =~= full);
        assert(shift_first(split_sep(full, sep), cur@) =~~= split_sep(full, sep)) by {
            lemma_split_sep_len(full, sep);
            assert(Seq::<u8>::empty() + split_sep(full, sep)[0] =~= split_sep(full, sep)[0]);
            assert(seq![split_sep(full, sep)[0]] + split_sep(full, sep).skip(1) =~= split_sep(
                full,
                sep,
            ));
        }
    }
    while i < s.len()
        invariant
            i <= full.len(),
            s@ == full,
            split_sep(full, sep) =~~= pieces_view(done@) + shift_first(
                split_sep(full.skip(i as int), sep),
                cur@,
            ),
        decreases full.len() - i,
    {
        let ghost tail: Seq<u8> = full.skip(i as int);
        let ghost tail1: Seq<u8> = full.skip(i as int + 1);
        proof {
            assert(tail.len() == full.len() - i);
            assert(tail[0] == full[i as int]);
            assert(tail.skip(1) =~= tail1);
            lemma_split_sep_len(tail1, sep);
        }
        let b = s[i];
        if b == sep {
            let ghost old_done = done@;
            let ghost old_cur = cur@;
            done.push(cur);
            cur = Vec::new();
            proof {
                assert(split_sep(tail, sep) =~~= seq![Seq::<u8>::empty()] + split_sep(tail1, sep));
                assert(shift_first(split_sep(tail, sep), old_cur) =~~= seq![old_cur] + split_sep(
                    tail1,
                    sep,
                )) by {
                    assert(old_cur + Seq::<u8>::empty() =~= old_cur);
                    assert((seq![Seq::<u8>::empty()] + split_sep(tail1, sep)).skip(1) =~= split_sep(
                        tail1,
                        sep,
                    ));
                }
                assert(pieces_view(done@) =~= pieces_view(old_done).push(old_cur));
                assert(shift_first(split_sep(tail1, sep), cur@) =~~= shift_first(
                    split_sep(tail1, sep),
                    Seq::<u8>::empty(),
                ));
                assert(pieces_view(old_done) + shift_first(split_sep(tail, sep), old_cur)
                    =~~= pieces_view(done@) + shift_first(split_sep(tail1, sep), cur@)) by {
                    assert(Seq::<u8>::empty() + split_sep(tail1, sep)[0] =~= split_sep(
                        tail1,
                        sep,
                    )[0]);
                }
            }
        } else {
            let ghost old_cur = cur@;
            cur.push(b);
            proof {
                let rest = split_sep(tail1, sep);
                assert(split_sep(tail, sep) =~~= seq![seq![b] + rest[0]] + rest.skip(1));
                assert(shift_first(split_sep(tail, sep), old_cur) =~~= shift_first(
                    rest,
                    cur@,
                )) by {
                    assert(old_cur + (seq![b] + rest[0]) =~= (old_cur + seq![b]) + rest[0]);
                    assert(cur@ =~= old_cur + seq![b]);
                    assert((seq![seq![b] + rest[0]] + rest.skip(1)).skip(1) =~= rest.skip(1));
                }
            }
        }
        i = i + 1;
    }
    proof {
        assert(full.skip(i as int) =~= Seq::<u8>::empty());
        assert(split_sep(full.skip(i as int), sep) =~~= seq![Seq::<u8>::empty()]);
        assert(shift_first(seq![Seq::<u8>::empty()], cur@) =~~= seq![cur@]) by {
            assert(cur@ + Seq::<u8>::empty() =~= cur@);
            assert(seq![Seq::<u8>::empty()].skip(1) =~= Seq::<Seq<u8>>::empty());
            assert(seq![cur@ + Seq::<u8>::empty()] + Seq::<Seq<u8>>::empty() =~= seq![cur@
                + Seq::<u8>::empty()]);
        }
    }
    let ghost old_done = done@;
    done.push(cur);
    proof {
        assert(pieces_view(done@) =~= pieces_view(old_done).push(cur@));
        assert(split_sep(full, sep) =~~= pieces_view(done@));
    }
    done
}

/// Joins the pieces `ls[from..to]`, putting `sep` between each two.
pub fn join_range(ls: &Vec<Vec<u8>>, from: usize, to: usize, sep: u8) -> (r: Vec<u8>)
    requires
        from <= to <= ls@.len(),
    ensures
        r@ == join_sep(pieces_view(ls@).subrange(from as int, to as int), sep),
{
    let mut r: Vec<u8> = Vec::new();
    let mut i: usize = from;
    proof {
        assert(pieces_view(ls@).subrange(from as int, from as int) =~= Seq::<Seq<u8>>::empty());
    }
    while i < to
        invariant
            from <= i <= to <= ls@.len(),
            r@ == join_sep(pieces_view(ls@).subrange(from as int, i as int), sep),
        decreases to - i,
    {
        let ghost before = pieces_view(ls@).subrange(from as int, i as int);
        let ghost after = pieces_view(ls@).subrange(from as int, i as int + 1);
        proof {
            assert(after.drop_last() =~= before);
            assert(after.last() == ls@[i as int]@);
        }
        if i > from {
            r.push(sep);
        }
        let piece = &ls[i];
        let mut k: usize = 0;
        let ghost r_mid = r@;
        while k < piece.len()
            invariant
                k <= piece@.len(),
                r@ == r_mid + piece@.subrange(0, k as int),
            decreases piece@.len() - k,
        {
            let ghost rk = r@;
            r.push(piece[k]);
            proof {
                assert(rk.push(piece@[k as int]) =~= r_mid + piece@.subrange(0, k as int + 1));
            }
            k = k + 1;
        }
        proof {
            assert(piece@.subrange(0, piece@.len() as int) =~= piece@);
            if i > from {
                assert(before.len() >= 1);
                assert(r@ =~= join_sep(before, sep) + seq![sep] + after.last());
                assert(r@ == join_sep(after, sep));
            } else {
                assert(before.len() == 0);
                assert(join_sep(before, sep) =~= Seq::<u8>::empty());
                assert(r@ =~= after.last());
                assert(after.len() == 1);
                assert(r@ == join_sep(after, sep));
            }
        }
        i = i + 1;
    }
    r
}

} // verus!
