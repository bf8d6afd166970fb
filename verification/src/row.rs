//! The slide-and-merge transform for one row of four tiles.
//!
//! A row slides all nonzero tiles toward one end; on the way, the earliest
//! pair of equal values (in scan order from index 0, for a rightward slide)
//! merges into its sum, and a merged tile takes no further part in the same
//! pass.

use vstd::prelude::*;

verus! {

broadcast use vstd::seq_lib::group_seq_lib_default;

/// The values of a row as mathematical integers.
pub open spec fn ints(s: Seq<u16>) -> Seq<int> {
    s.map_values(|v: u16| v as int)
}

/// The values of a wide row as mathematical integers.
pub open spec fn wide_ints(s: Seq<u32>) -> Seq<int> {
    s.map_values(|v: u32| v as int)
}

/// The nonzero values of a row, in order.
pub open spec fn nonzeros(s: Seq<int>) -> Seq<int> {
    s.filter(|v: int| v != 0)
}

/// A row of `n` empty cells.
pub open spec fn zero_row(n: nat) -> Seq<int> {
    Seq::new(n, |i: int| 0)
}

/// One merge pass over the nonzero values, scanning from index 0: the
/// earliest pair of equal adjacent values becomes its sum, and the merged
/// value is skipped for the rest of the pass.
pub open spec fn merge_pairs(s: Seq<int>) -> Seq<int>
    decreases s.len(),
{
    if s.len() <= 1 {
        s
    } else if s[0] == s[1] {
        seq![s[0] + s[1]] + merge_pairs(s.skip(2))
    } else {
        seq![s[0]] + merge_pairs(s.skip(1))
    }
}

/// The row after a rightward slide: the merged nonzero values packed at
/// the right end, zeros filling the vacated cells on the left.
pub open spec fn slide_right(s: Seq<int>) -> Seq<int> {
    let m = merge_pairs(nonzeros(s));
    zero_row((s.len() - m.len()) as nat) + m
}

/// The row after a leftward slide: the mirror of the rightward slide.
pub open spec fn slide_left(s: Seq<int>) -> Seq<int> {
    slide_right(s.reverse()).reverse()
}

/// Every value of the row is representable as a 16-bit tile.
pub open spec fn fits_u16(s: Seq<int>) -> bool {
    forall|i: int| 0 <= i < s.len() ==> 0 <= #[trigger] s[i] <= u16::MAX
}

pub proof fn lemma_merge_pairs_len(s: Seq<int>)
    ensures
        merge_pairs(s).len() <= s.len(),
    decreases s.len(),
{
    if s.len() <= 1 {
    } else if s[0] == s[1] {
        lemma_merge_pairs_len(s.skip(2));
    } else {
        lemma_merge_pairs_len(s.skip(1));
    }
}

pub proof fn lemma_slide_right_len(s: Seq<int>)
    ensures
        slide_right(s).len() == s.len(),
{
    lemma_merge_pairs_len(nonzeros(s));
    assert(nonzeros(s).len() <= s.len());
}

pub proof fn lemma_slide_left_len(s: Seq<int>)
    ensures
        slide_left(s).len() == s.len(),
{
    lemma_slide_right_len(s.reverse());
}

proof fn lemma_nonzeros_single(v: int)
    ensures
        nonzeros(seq![v]) == if v != 0 {
            seq![v]
        } else {
            Seq::<int>::empty()
        },
{
    reveal_with_fuel(Seq::<_>::filter, 2);
    assert(seq![v].drop_last() =~= Seq::<int>::empty());
    if v != 0 {
        assert(nonzeros(seq![v]) =~= seq![v]);
    } else {
        assert(nonzeros(seq![v]) =~= Seq::<int>::empty());
    }
}

/// The sum of the values of a row.
pub open spec fn sum_of(s: Seq<int>) -> int
    decreases s.len(),
{
    if s.len() == 0 {
        0
    } else {
        s[0] + sum_of(s.skip(1))
    }
}

/// Nonzero values packed against the right end, with no equal adjacent
/// pair among them: nothing in such a row can slide or merge.
pub open spec fn settled_right(s: Seq<int>) -> bool {
    &&& forall|i: int, j: int| 0 <= i < j < s.len() && #[trigger] s[i] != 0 ==> #[trigger] s[j]
        != 0
    &&& forall|i: int| 0 <= i && i + 1 < s.len() && #[trigger] s[i] != 0 ==> s[i] != s[i + 1]
}

/// The mirror image: nonzero values packed against the left end, with no
/// equal adjacent pair among them.
pub open spec fn settled_left(s: Seq<int>) -> bool {
    settled_right(s.reverse())
}

proof fn lemma_sum_cons(x: int, t: Seq<int>)
    ensures
        sum_of(seq![x] + t) == x + sum_of(t),
{
    assert((seq![x] + t).skip(1) =~= t);
    assert((seq![x] + t)[0] == x);
}

proof fn lemma_sum_nonneg(s: Seq<int>)
    requires
        forall|i: int| 0 <= i < s.len() ==> 0 <= #[trigger] s[i],
    ensures
        0 <= sum_of(s),
    decreases s.len(),
{
    if s.len() > 0 {
        lemma_sum_nonneg(s.skip(1));
    }
}

proof fn lemma_merge_pairs_sum(s: Seq<int>)
    ensures
        sum_of(merge_pairs(s)) == sum_of(s),
    decreases s.len(),
{
    if s.len() <= 1 {
    } else if s[0] == s[1] {
        lemma_merge_pairs_sum(s.skip(2));
        lemma_sum_cons(s[0] + s[1], merge_pairs(s.skip(2)));
        assert(s.skip(1).skip(1) =~= s.skip(2));
        assert(s.skip(1)[0] == s[1]);
        assert(sum_of(s.skip(1)) == s[1] + sum_of(s.skip(2)));
    } else {
        lemma_merge_pairs_sum(s.skip(1));
        lemma_sum_cons(s[0], merge_pairs(s.skip(1)));
    }
}

proof fn lemma_merge_pairs_pos(s: Seq<int>)
    requires
        forall|i: int| 0 <= i < s.len() ==> 0 < #[trigger] s[i],
    ensures
        forall|i: int| 0 <= i < merge_pairs(s).len() ==> 0 < #[trigger] merge_pairs(s)[i],
    decreases s.len(),
{
    if s.len() <= 1 {
    } else if s[0] == s[1] {
        lemma_merge_pairs_pos(s.skip(2));
        assert forall|i: int| 0 <= i < merge_pairs(s).len() implies 0 < #[trigger] merge_pairs(
            s,
        )[i] by {
            if i > 0 {
                assert(merge_pairs(s)[i] == merge_pairs(s.skip(2))[i - 1]);
            }
        }
    } else {
        lemma_merge_pairs_pos(s.skip(1));
        assert forall|i: int| 0 <= i < merge_pairs(s).len() implies 0 < #[trigger] merge_pairs(
            s,
        )[i] by {
            if i > 0 {
                assert(merge_pairs(s)[i] == merge_pairs(s.skip(1))[i - 1]);
            }
        }
    }
}

proof fn lemma_nonzeros_all_zero(s: Seq<int>)
    requires
        forall|i: int| 0 <= i < s.len() ==> #[trigger] s[i] == 0,
    ensures
        nonzeros(s) == Seq::<int>::empty(),
    decreases s.len(),
{
    reveal_with_fuel(Seq::<_>::filter, 2);
    if s.len() == 0 {
        assert(nonzeros(s) =~= Seq::<int>::empty());
    } else {
        lemma_nonzeros_all_zero(s.drop_last());
    }
}

proof fn lemma_nonzeros_id(s: Seq<int>)
    requires
        forall|i: int| 0 <= i < s.len() ==> #[trigger] s[i] != 0,
    ensures
        nonzeros(s) == s,
    decreases s.len(),
{
    reveal_with_fuel(Seq::<_>::filter, 2);
    if s.len() == 0 {
        assert(nonzeros(s) =~= s);
    } else {
        lemma_nonzeros_id(s.drop_last());
        assert(nonzeros(s) =~= s);
    }
}

proof fn lemma_nonzeros_pos(s: Seq<int>)
    requires
        forall|i: int| 0 <= i < s.len() ==> 0 <= #[trigger] s[i],
    ensures
        forall|i: int| 0 <= i < nonzeros(s).len() ==> 0 < #[trigger] nonzeros(s)[i],
    decreases s.len(),
{
    reveal_with_fuel(Seq::<_>::filter, 2);
    if s.len() > 0 {
        lemma_nonzeros_pos(s.drop_last());
        assert forall|i: int| 0 <= i < nonzeros(s).len() implies 0 < #[trigger] nonzeros(
            s,
        )[i] by {
            if s.last() != 0 {
                assert(nonzeros(s) == nonzeros(s.drop_last()).push(s.last()));
                if i < nonzeros(s).len() - 1 {
                    assert(nonzeros(s)[i] == nonzeros(s.drop_last())[i]);
                } else {
                    assert(nonzeros(s)[i] == s.last());
                    assert(0 <= s[s.len() - 1]);
                }
            } else {
                assert(nonzeros(s) == nonzeros(s.drop_last()));
            }
        }
    }
}

/// A rightward slide keeps the row length, and the nonzero values of the
/// slid row sum to exactly the sum of the nonzero input values — so to at
/// least that sum, and to at most double it.
pub proof fn lemma_slide_right_sum(s: Seq<int>)
    requires
        forall|i: int| 0 <= i < s.len() ==> 0 <= #[trigger] s[i],
    ensures
        slide_right(s).len() == s.len(),
        sum_of(nonzeros(slide_right(s))) == sum_of(nonzeros(s)),
        sum_of(nonzeros(s)) <= sum_of(nonzeros(slide_right(s))) <= 2 * sum_of(nonzeros(s)),
{
    lemma_slide_right_len(s);
    let nz = nonzeros(s);
    let m = merge_pairs(nz);
    let z = zero_row((s.len() - m.len()) as nat);
    lemma_nonzeros_pos(s);
    lemma_merge_pairs_pos(nz);
    lemma_nonzeros_all_zero(z);
    lemma_nonzeros_id(m);
    assert(nonzeros(slide_right(s)) == nonzeros(z) + nonzeros(m));
    assert(Seq::<int>::empty() + m =~= m);
    lemma_merge_pairs_sum(nz);
    lemma_sum_nonneg(nz);
}

proof fn lemma_sum_snoc(t: Seq<int>, v: int)
    ensures
        sum_of(t.push(v)) == sum_of(t) + v,
    decreases t.len(),
{
    if t.len() == 0 {
        assert(t.push(v).skip(1) =~= Seq::<int>::empty());
        assert(t.push(v)[0] == v);
        assert(sum_of(t.push(v)) == v + sum_of(t.push(v).skip(1)));
        assert(sum_of(t.push(v).skip(1)) == 0);
    } else {
        lemma_sum_snoc(t.skip(1), v);
        assert(t.push(v)[0] == t[0]);
        assert(t.push(v).skip(1) =~= t.skip(1).push(v));
        assert(sum_of(t.push(v)) == t[0] + sum_of(t.push(v).skip(1)));
        assert(sum_of(t) == t[0] + sum_of(t.skip(1)));
    }
}

proof fn lemma_sum_nonzeros(s: Seq<int>)
    ensures
        sum_of(nonzeros(s)) == sum_of(s),
    decreases s.len(),
{
    reveal_with_fuel(Seq::<_>::filter, 2);
    if s.len() == 0 {
    } else {
        lemma_sum_nonzeros(s.drop_last());
        lemma_sum_snoc(s.drop_last(), s.last());
        if s.last() != 0 {
            lemma_sum_snoc(nonzeros(s.drop_last()), s.last());
        }
        assert(s.drop_last().push(s.last()) =~= s);
    }
}

proof fn lemma_sum_reverse(s: Seq<int>)
    ensures
        sum_of(s.reverse()) == sum_of(s),
    decreases s.len(),
{
    if s.len() > 0 {
        lemma_sum_reverse(s.drop_last());
        lemma_sum_snoc(s.drop_last(), s.last());
        assert(s.drop_last().push(s.last()) =~= s);
        assert(s.reverse()[0] == s.last());
        assert(s.reverse().skip(1) =~= s.drop_last().reverse());
    }
}

/// The mirror statement for a leftward slide: length kept, nonzero sum
/// conserved exactly, so within the stated bounds.
pub proof fn lemma_slide_left_sum(s: Seq<int>)
    requires
        forall|i: int| 0 <= i < s.len() ==> 0 <= #[trigger] s[i],
    ensures
        slide_left(s).len() == s.len(),
        sum_of(nonzeros(slide_left(s))) == sum_of(nonzeros(s)),
        sum_of(nonzeros(s)) <= sum_of(nonzeros(slide_left(s))) <= 2 * sum_of(nonzeros(s)),
{
    lemma_slide_left_len(s);
    assert forall|i: int| 0 <= i < s.reverse().len() implies 0 <= #[trigger] s.reverse()[i] by {
        assert(s.reverse()[i] == s[s.len() - 1 - i]);
    }
    lemma_slide_right_sum(s.reverse());
    lemma_sum_nonzeros(slide_left(s));
    lemma_sum_reverse(slide_right(s.reverse()));
    lemma_sum_nonzeros(slide_right(s.reverse()));
    lemma_sum_nonzeros(s.reverse());
    lemma_sum_reverse(s);
    lemma_sum_nonzeros(s);
    lemma_nonzeros_pos(s);
    lemma_sum_nonneg(nonzeros(s));
}

/// A positive power of two reachable by repeated doubling from 2.
pub open spec fn is_tile_power(v: int) -> bool
    decreases v,
{
    if v == 2 {
        true
    } else if v < 2 || v % 2 != 0 {
        false
    } else {
        is_tile_power(v / 2)
    }
}

/// A legal cell value: empty, or a power of two from 2 upward.
pub open spec fn is_tile(v: int) -> bool {
    v == 0 || is_tile_power(v)
}

proof fn lemma_merge_pairs_tiles(s: Seq<int>)
    requires
        forall|i: int| 0 <= i < s.len() ==> is_tile_power(#[trigger] s[i]),
    ensures
        forall|i: int| 0 <= i < merge_pairs(s).len() ==> is_tile_power(#[trigger] merge_pairs(s)[i]),
    decreases s.len(),
{
    if s.len() <= 1 {
    } else if s[0] == s[1] {
        lemma_merge_pairs_tiles(s.skip(2));
        assert(s[0] >= 2);
        assert(is_tile_power(s[0] + s[1]));
        assert forall|i: int| 0 <= i < merge_pairs(s).len() implies is_tile_power(
            #[trigger] merge_pairs(s)[i],
        ) by {
            if i > 0 {
                assert(merge_pairs(s)[i] == merge_pairs(s.skip(2))[i - 1]);
            }
        }
    } else {
        lemma_merge_pairs_tiles(s.skip(1));
        assert forall|i: int| 0 <= i < merge_pairs(s).len() implies is_tile_power(
            #[trigger] merge_pairs(s)[i],
        ) by {
            if i > 0 {
                assert(merge_pairs(s)[i] == merge_pairs(s.skip(1))[i - 1]);
            }
        }
    }
}

proof fn lemma_nonzeros_tiles(s: Seq<int>)
    requires
        forall|i: int| 0 <= i < s.len() ==> is_tile(#[trigger] s[i]),
    ensures
        forall|i: int| 0 <= i < nonzeros(s).len() ==> is_tile_power(#[trigger] nonzeros(s)[i]),
    decreases s.len(),
{
    reveal_with_fuel(Seq::<_>::filter, 2);
    if s.len() > 0 {
        lemma_nonzeros_tiles(s.drop_last());
        assert forall|i: int| 0 <= i < nonzeros(s).len() implies is_tile_power(
            #[trigger] nonzeros(s)[i],
        ) by {
            if s.last() != 0 {
                assert(nonzeros(s) == nonzeros(s.drop_last()).push(s.last()));
                if i < nonzeros(s).len() - 1 {
                    assert(nonzeros(s)[i] == nonzeros(s.drop_last())[i]);
                } else {
                    assert(nonzeros(s)[i] == s.last());
                    assert(is_tile(s[s.len() - 1]));
                }
            } else {
                assert(nonzeros(s) == nonzeros(s.drop_last()));
            }
        }
    }
}

/// A slid row holds only legal tile values again: every cell is empty or
/// a power of two, whenever every input cell was.
pub proof fn lemma_slide_right_tiles(s: Seq<int>)
    requires
        forall|i: int| 0 <= i < s.len() ==> is_tile(#[trigger] s[i]),
    ensures
        forall|i: int| 0 <= i < slide_right(s).len() ==> is_tile(#[trigger] slide_right(s)[i]),
{
    let nz = nonzeros(s);
    let m = merge_pairs(nz);
    let padlen = s.len() - m.len();
    lemma_merge_pairs_len(nz);
    lemma_nonzeros_tiles(s);
    lemma_merge_pairs_tiles(nz);
    assert forall|i: int| 0 <= i < slide_right(s).len() implies is_tile(
        #[trigger] slide_right(s)[i],
    ) by {
        if i < padlen {
            assert(slide_right(s)[i] == 0);
        } else {
            assert(slide_right(s)[i] == m[i - padlen]);
        }
    }
}

/// The mirror statement for a leftward slide.
pub proof fn lemma_slide_left_tiles(s: Seq<int>)
    requires
        forall|i: int| 0 <= i < s.len() ==> is_tile(#[trigger] s[i]),
    ensures
        forall|i: int| 0 <= i < slide_left(s).len() ==> is_tile(#[trigger] slide_left(s)[i]),
{
    assert forall|i: int| 0 <= i < s.reverse().len() implies is_tile(#[trigger] s.reverse()[i]) by {
        assert(s.reverse()[i] == s[s.len() - 1 - i]);
    }
    lemma_slide_right_tiles(s.reverse());
    let r = slide_right(s.reverse());
    assert forall|i: int| 0 <= i < slide_left(s).len() implies is_tile(
        #[trigger] slide_left(s)[i],
    ) by {
        assert(slide_left(s)[i] == r[r.len() - 1 - i]);
    }
}

proof fn lemma_merge_pairs_no_adjacent(s: Seq<int>)
    requires
        forall|i: int| 0 <= i && i + 1 < s.len() ==> #[trigger] s[i] != s[i + 1],
    ensures
        merge_pairs(s) == s,
    decreases s.len(),
{
    if s.len() <= 1 {
    } else {
        lemma_merge_pairs_no_adjacent(s.skip(1));
        assert(merge_pairs(s) =~= s);
    }
}

#[verifier::spinoff_prover]
#[verifier::rlimit(100)]
proof fn lemma_packed_decompose(s: Seq<int>)
    requires
        forall|i: int, j: int| 0 <= i < j < s.len() && #[trigger] s[i] != 0 ==> #[trigger] s[j]
            != 0,
    ensures
        nonzeros(s).len() <= s.len(),
        s == zero_row((s.len() - nonzeros(s).len()) as nat) + nonzeros(s),
    decreases s.len(),
{
    if s.len() == 0 {
        lemma_nonzeros_all_zero(s);
        assert(s =~= zero_row((s.len() - nonzeros(s).len()) as nat) + nonzeros(s));
    } else if s.last() != 0 {
        let dl = s.drop_last();
        let nzdl = nonzeros(dl);
        lemma_packed_decompose(dl);
        assert(nonzeros(s) == nzdl.push(s.last())) by {
            reveal_with_fuel(Seq::<_>::filter, 2);
        }
        let z = s.len() - nonzeros(s).len();
        assert(z == dl.len() - nzdl.len());
        assert forall|i: int| 0 <= i < s.len() implies s[i] == (zero_row(z as nat) + nonzeros(
            s,
        ))[i] by {
            if i < s.len() - 1 {
                assert(s[i] == dl[i]);
                assert(dl[i] == (zero_row(z as nat) + nzdl)[i]);
                if i >= z {
                    assert(nonzeros(s)[i - z] == nzdl[i - z]);
                }
            } else {
                assert((zero_row(z as nat) + nonzeros(s))[i] == nonzeros(s)[i - z]);
                assert(nonzeros(s)[i - z] == s.last());
            }
        }
        assert(s =~= zero_row(z as nat) + nonzeros(s));
    } else {
        assert forall|i: int| 0 <= i < s.len() implies #[trigger] s[i] == 0 by {
            if i < s.len() - 1 && s[i] != 0 {
                assert(s[s.len() - 1] != 0);
            }
        }
        lemma_nonzeros_all_zero(s);
        assert(s =~= zero_row((s.len() - nonzeros(s).len()) as nat) + nonzeros(s));
    }
}

/// A merged tile never re-merges in the same call: a row in the settled
/// state a slide leaves behind — packed rightward, no equal adjacent
/// pair — comes out of a further rightward slide unchanged.
#[verifier::spinoff_prover]
#[verifier::rlimit(100)]
pub proof fn lemma_slide_right_settled(s: Seq<int>)
    requires
        settled_right(s),
    ensures
        slide_right(s) == s,
{
    let nz = nonzeros(s);
    lemma_packed_decompose(s);
    let z = (s.len() - nz.len()) as int;
    assert forall|i: int| 0 <= i && i + 1 < nz.len() implies #[trigger] nz[i] != nz[i + 1] by {
        assert(nz[i] == (zero_row(z as nat) + nz)[z + i]);
        assert(nz[i + 1] == (zero_row(z as nat) + nz)[z + i + 1]);
        assert(nz[i] != 0);
    }
    lemma_merge_pairs_no_adjacent(nz);
    assert(slide_right(s) == zero_row((s.len() - nz.len()) as nat) + nz);
}

/// The mirror statement for a leftward slide.
pub proof fn lemma_slide_left_settled(s: Seq<int>)
    requires
        settled_left(s),
    ensures
        slide_left(s) == s,
{
    lemma_slide_right_settled(s.reverse());
    assert(slide_right(s.reverse()).reverse() =~= s);
}

fn reversed(v: &Vec<u16>) -> (r: Vec<u16>)
    ensures
        r@ == v@.reverse(),
{
    let mut r: Vec<u16> = Vec::new();
    let mut i: usize = v.len();
    while i > 0
        invariant
            i <= v@.len(),
            r@.len() == v@.len() - i,
            forall|k: int| 0 <= k < r@.len() ==> r@[k] == v@[v@.len() - 1 - k],
        decreases i,
    {
        i -= 1;
        r.push(v[i]);
    }
    proof {
        assert(r@ =~= v@.reverse());
    }
    r
}

/// The row slid and merged toward the left end (index 0): the mirror of
/// the rightward slide.
pub fn move_row_left(row: &Vec<u16>) -> (res: Vec<u16>)
    requires
        row@.len() == 4,
        fits_u16(slide_left(ints(row@))),
    ensures
        ints(res@) == slide_left(ints(row@)),
        res@.len() == 4,
{
    let rev = reversed(row);
    proof {
        assert(ints(rev@) =~= ints(row@).reverse());
        lemma_slide_right_len(ints(rev@));
        assert forall|k: int| 0 <= k < slide_right(ints(rev@)).len() implies 0 <= #[trigger] slide_right(
            ints(rev@),
        )[k] <= u16::MAX by {
            assert(slide_left(ints(row@))[4 - 1 - k] == slide_right(ints(rev@))[k]);
        }
    }
    let out = move_row_right(&rev);
    let res = reversed(&out);
    proof {
        assert(ints(res@) =~= ints(out@).reverse());
        assert(ints(res@) =~= slide_left(ints(row@)));
    }
    res
}

/// The row slid and merged toward the right end (index 3).
/// The merged nonzero values of the row, in order, each wide enough to
/// hold the sum of two tiles.
fn merge_row_values(row: &Vec<u16>) -> (merged: Vec<u32>)
    requires
        row@.len() == 4,
    ensures
        wide_ints(merged@) == merge_pairs(nonzeros(ints(row@))),
        merged@.len() <= 4,
{
    // gather the nonzero values, in order
    let mut nz: Vec<u16> = Vec::new();
    let mut i: usize = 0;
    while i < 4
        invariant
            i <= 4,
            row@.len() == 4,
            nz@.len() <= i,
            ints(nz@) == nonzeros(ints(row@).take(i as int)),
        decreases 4 - i,
    {
        let v = row[i];
        proof {
            assert(ints(row@).take(i + 1) =~= ints(row@).take(i as int) + seq![
                ints(row@)[i as int],
            ]);
            lemma_nonzeros_single(ints(row@)[i as int]);
            assert(ints(nz@.push(v)) =~= ints(nz@) + seq![v as int]);
        }
        if v != 0 {
            nz.push(v);
        }
        i += 1;
    }
    proof {
        assert(ints(row@).take(4) =~= ints(row@));
    }

    let ghost nzs: Seq<int> = ints(nz@);
    let ghost m: Seq<int> = merge_pairs(nzs);
    proof {
        lemma_merge_pairs_len(nzs);
    }

    // merge equal adjacent values, earliest pair first
    let mut merged: Vec<u32> = Vec::new();
    let mut j: usize = 0;
    proof {
        assert(nzs.skip(0) =~= nzs);
        assert(wide_ints(merged@) =~= Seq::<int>::empty());
        assert(Seq::<int>::empty() + m =~= m);
    }
    while j < nz.len()
        invariant
            j <= nz@.len(),
            nz@.len() <= 4,
            ints(nz@) == nzs,
            m == merge_pairs(nzs),
            m == wide_ints(merged@) + merge_pairs(nzs.skip(j as int)),
            merged@.len() <= j,
        decreases nz@.len() - j,
    {
        let ghost rest = nzs.skip(j as int);
        let a = nz[j];
        if j + 1 < nz.len() && nz[j] == nz[j + 1] {
            proof {
                assert(rest[0] == a as int && rest[1] == a as int);
                assert(merge_pairs(rest) == seq![rest[0] + rest[1]] + merge_pairs(rest.skip(2)));
                assert(rest.skip(2) =~= nzs.skip(j + 2));
                assert(wide_ints(merged@.push(((a as int + a as int) as u32))) =~= wide_ints(
                    merged@,
                ) + seq![a as int + a as int]);
                assert((wide_ints(merged@) + seq![a as int + a as int]) + merge_pairs(
                    nzs.skip(j + 2),
                ) =~= wide_ints(merged@) + (seq![a as int + a as int] + merge_pairs(
                    nzs.skip(j + 2),
                )));
            }
            let b = a as u32 + a as u32;
            merged.push(b);
            j += 2;
        } else {
            proof {
                assert(rest[0] == a as int);
                if rest.len() == 1 {
                    assert(rest.skip(1) =~= Seq::<int>::empty());
                    assert(merge_pairs(rest) =~= seq![rest[0]] + merge_pairs(rest.skip(1)));
                } else {
                    assert(merge_pairs(rest) == seq![rest[0]] + merge_pairs(rest.skip(1)));
                }
                assert(rest.skip(1) =~= nzs.skip(j + 1));
                assert(wide_ints(merged@.push(a as u32)) =~= wide_ints(merged@) + seq![a as int]);
                assert((wide_ints(merged@) + seq![a as int]) + merge_pairs(nzs.skip(j + 1))
                    =~= wide_ints(merged@) + (seq![a as int] + merge_pairs(nzs.skip(j + 1))));
            }
            merged.push(a as u32);
            j += 1;
        }
    }
    proof {
        assert(nzs.skip(nzs.len() as int) =~= Seq::<int>::empty());
        assert(m =~= wide_ints(merged@));
    }
    merged
}

/// The row slid and merged toward the right end (index 3).
pub fn move_row_right(row: &Vec<u16>) -> (res: Vec<u16>)
    requires
        row@.len() == 4,
        fits_u16(slide_right(ints(row@))),
    ensures
        ints(res@) == slide_right(ints(row@)),
        res@.len() == 4,
{
    let ghost s: Seq<int> = ints(row@);
    let merged = merge_row_values(row);
    let ghost m: Seq<int> = merge_pairs(nonzeros(s));
    proof {
        lemma_merge_pairs_len(nonzeros(s));
        // every merged value is a value of the slid row, so it fits
        assert forall|k: int| 0 <= k < m.len() implies 0 <= #[trigger] m[k] <= u16::MAX by {
            assert(slide_right(s)[4 - m.len() + k] == m[k]);
        }
    }

    // pack: zeros on the left, then the merged values
    let mut res: Vec<u16> = Vec::new();
    let pad = 4 - merged.len();
    let mut k: usize = 0;
    while k < pad
        invariant
            k <= pad,
            pad == 4 - merged@.len(),
            merged@.len() <= 4,
            ints(res@) == zero_row(k as nat),
        decreases pad - k,
    {
        proof {
            assert(ints(res@.push(0u16)) =~= ints(res@) + seq![0int]);
            assert(zero_row((k + 1) as nat) =~= zero_row(k as nat) + seq![0int]);
        }
        res.push(0);
        k += 1;
    }
    let mut t: usize = 0;
    while t < merged.len()
        invariant
            t <= merged@.len(),
            merged@.len() <= 4,
            pad == 4 - merged@.len(),
            wide_ints(merged@) == m,
            forall|q: int| 0 <= q < m.len() ==> 0 <= #[trigger] m[q] <= u16::MAX,
            ints(res@) == zero_row(pad as nat) + m.take(t as int),
        decreases merged@.len() - t,
    {
        let v = merged[t];
        proof {
            assert(m[t as int] == v as int);
        }
        let v16 = v as u16;
        proof {
            assert(v16 as int == v as int);
            assert(ints(res@.push(v16)) =~= ints(res@) + seq![v16 as int]);
            assert(m.take(t + 1) =~= m.take(t as int) + seq![v16 as int]);
            assert((zero_row(pad as nat) + m.take(t as int)) + seq![v16 as int] =~= zero_row(
                pad as nat,
            ) + (m.take(t as int) + seq![v16 as int]));
        }
        res.push(v16);
        t += 1;
    }
    proof {
        assert(m.take(m.len() as int) =~= m);
        assert(ints(res@) =~= slide_right(ints(row@)));
    }
    res
}

proof fn lemma_fits_reverse(x: Seq<int>)
    ensures
        fits_u16(x.reverse()) == fits_u16(x),
{
    if fits_u16(x) {
        assert forall|i: int| 0 <= i < x.reverse().len() implies 0 <= #[trigger] x.reverse()[i]
            <= u16::MAX by {
            assert(x.reverse()[i] == x[x.len() - 1 - i]);
        }
    }
    if fits_u16(x.reverse()) {
        assert forall|i: int| 0 <= i < x.len() implies 0 <= #[trigger] x[i] <= u16::MAX by {
            assert(x.reverse()[x.len() - 1 - i] == x[i]);
        }
    }
}

/// Whether the merged values of a rightward slide all stay within a
/// 16-bit tile: the executable test for `move_row_right`'s precondition.
pub fn right_slide_fits(row: &Vec<u16>) -> (ok: bool)
    requires
        row@.len() == 4,
    ensures
        ok == fits_u16(slide_right(ints(row@))),
{
    let ghost s: Seq<int> = ints(row@);
    let merged = merge_row_values(row);
    let ghost m: Seq<int> = merge_pairs(nonzeros(s));
    proof {
        lemma_merge_pairs_len(nonzeros(s));
        lemma_slide_right_len(s);
        assert forall|i: int| 0 <= i < s.len() implies 0 <= #[trigger] s[i] by {
            assert(s[i] == row@[i] as int);
        }
        lemma_nonzeros_pos(s);
        lemma_merge_pairs_pos(nonzeros(s));
    }
    let mut ok = true;
    let mut t: usize = 0;
    while t < merged.len()
        invariant
            t <= merged@.len(),
            wide_ints(merged@) == m,
            ok == (forall|q: int| 0 <= q < t ==> #[trigger] m[q] <= u16::MAX),
        decreases merged@.len() - t,
    {
        if merged[t] > 0xFFFF {
            ok = false;
        }
        proof {
            assert(m[t as int] == merged@[t as int] as int);
        }
        t += 1;
    }
    proof {
        let padlen = 4 - m.len();
        if ok {
            assert forall|i: int| 0 <= i < slide_right(s).len() implies 0 <= #[trigger] slide_right(
                s,
            )[i] <= u16::MAX by {
                if i < padlen {
                    assert(slide_right(s)[i] == 0);
                } else {
                    assert(slide_right(s)[i] == m[i - padlen]);
                    assert(0 < m[i - padlen]);
                }
            }
        } else {
            let q = choose|q: int| 0 <= q < m.len() && #[trigger] m[q] > u16::MAX;
            assert(slide_right(s)[padlen + q] == m[q]);
            assert(!fits_u16(slide_right(s)));
        }
    }
    ok
}

/// Whether the merged values of a leftward slide all stay within a
/// 16-bit tile: the executable test for `move_row_left`'s precondition.
pub fn left_slide_fits(row: &Vec<u16>) -> (ok: bool)
    requires
        row@.len() == 4,
    ensures
        ok == fits_u16(slide_left(ints(row@))),
{
    let rev = reversed(row);
    let ok = right_slide_fits(&rev);
    proof {
        assert(ints(rev@) =~= ints(row@).reverse());
        lemma_fits_reverse(slide_right(ints(rev@)));
        assert(slide_right(ints(rev@)).reverse().reverse() =~= slide_right(ints(rev@)));
    }
    ok
}

} // verus!
