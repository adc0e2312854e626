//! What the strip transformations promise, whatever the strips: weaving
//! adds exactly the copies asked for and nothing else, and refining never
//! leaves a reel with nothing to show.

use vstd::prelude::*;
use crate::data::{after_count, refine_strip, spec_weave, survivors, woven_upto};
use crate::engine::reels::count_in;

verus! {

proof fn lemma_count_concat(a: Seq<usize>, b: Seq<usize>, x: usize)
    ensures
        count_in(a + b, x) == count_in(a, x) + count_in(b, x),
    decreases b.len(),
{
    if b.len() == 0 {
        assert(a + b =~= a);
    } else {
        lemma_count_concat(a, b.drop_last(), x);
        assert((a + b).drop_last() =~= a + b.drop_last());
    }
}

proof fn lemma_count_fill(n: nat, x: usize, y: usize)
    ensures
        count_in(Seq::new(n, |j: int| y), x) == if x == y { n } else { 0 },
    decreases n,
{
    if n > 0 {
        lemma_count_fill((n - 1) as nat, x, y);
        assert(Seq::new(n, |j: int| y).drop_last() =~= Seq::new((n - 1) as nat, |j: int| y));
    }
}

proof fn lemma_count_one(x: usize, y: usize)
    ensures
        count_in(seq![y], x) == if x == y { 1nat } else { 0nat },
{
    assert(seq![y].drop_last() =~= Seq::<usize>::empty());
    assert(count_in(Seq::<usize>::empty(), x) == 0);
}

proof fn lemma_woven_upto(strip: Seq<usize>, symbol: usize, extra: int, k: int)
    requires
        strip.len() > 0,
        extra >= 0,
        0 <= k <= strip.len(),
    ensures
        woven_upto(strip, symbol, extra, k).len() == k + (k * extra) / (strip.len() as int),
        count_in(woven_upto(strip, symbol, extra, k), symbol) == count_in(strip.subrange(0, k), symbol) + (k
            * extra) / (strip.len() as int),
    decreases k,
{
    let n = strip.len() as int;
    if k == 0 {
        assert(strip.subrange(0, 0) =~= Seq::<usize>::empty());
        assert(k * extra == 0) by (nonlinear_arith)
            requires
                k == 0,
        ;
        assert((k * extra) / n == 0);
    } else {
        lemma_woven_upto(strip, symbol, extra, k - 1);
        let prev = woven_upto(strip, symbol, extra, k - 1);
        let c = after_count(n, extra, k - 1);
        assert((k - 1 + 1) * extra == k * extra);
        assert(c == (k * extra) / n - ((k - 1) * extra) / n);
        assert(((k - 1) * extra) / n <= (k * extra) / n) by (nonlinear_arith)
            requires
                n > 0,
                extra >= 0,
                k >= 1,
        ;
        let fill = Seq::new(c as nat, |j: int| symbol);
        lemma_count_concat(prev + seq![strip[k - 1]], fill, symbol);
        lemma_count_concat(prev, seq![strip[k - 1]], symbol);
        lemma_count_fill(c as nat, symbol, symbol);
        lemma_count_one(symbol, strip[k - 1]);
        let pre = strip.subrange(0, k);
        assert(pre.drop_last() =~= strip.subrange(0, k - 1));
        assert(pre.last() == strip[k - 1]);
        assert(woven_upto(strip, symbol, extra, k) == prev + seq![strip[k - 1]] + fill);
        assert(fill.len() == c);
        assert(woven_upto(strip, symbol, extra, k).len() == prev.len() + 1 + c);
        assert(count_in(woven_upto(strip, symbol, extra, k), symbol) == count_in(prev, symbol) + count_in(seq![strip[k - 1]], symbol) + c);
        assert(count_in(pre, symbol) == count_in(strip.subrange(0, k - 1), symbol) + count_in(seq![strip[k - 1]], symbol));
    }
}

/// Weaving `extra` copies of a symbol into a strip lengthens it by exactly
/// `extra` and adds exactly `extra` of that symbol: the one thing the ante
/// changes is that symbol's share.
pub proof fn weaving_adds_exactly_the_copies(strip: Seq<usize>, symbol: usize, extra: nat)
    requires
        strip.len() > 0,
    ensures
        spec_weave(strip, symbol, extra as int).len() == strip.len() + extra,
        count_in(spec_weave(strip, symbol, extra as int), symbol) == count_in(strip, symbol) + extra,
{
    if extra > 0 {
        let n = strip.len() as int;
        lemma_woven_upto(strip, symbol, extra as int, n);
        assert((n * extra) / n == extra) by (nonlinear_arith)
            requires
                n > 0,
        ;
        assert(strip.subrange(0, n) =~= strip);
    }
}

proof fn lemma_survivors_spared(strip: Seq<usize>, doomed: Seq<usize>)
    ensures
        forall|i: int| 0 <= i < survivors(strip, doomed).len() ==> !doomed.contains(#[trigger] survivors(strip, doomed)[i]),
    decreases strip.len(),
{
    if strip.len() > 0 {
        let prev = survivors(strip.drop_last(), doomed);
        lemma_survivors_spared(strip.drop_last(), doomed);
        assert forall|i: int| 0 <= i < survivors(strip, doomed).len() implies !doomed.contains(
            #[trigger] survivors(strip, doomed)[i],
        ) by {
            if i < prev.len() {
                assert(survivors(strip, doomed)[i] == prev[i]);
            }
        }
    }
}

/// Refining a strip never empties it, and unless it would have, what is
/// left holds no burned symbol.
pub proof fn refining_keeps_every_reel_spinnable(strip: Seq<usize>, doomed: Seq<usize>)
    requires
        strip.len() > 0,
    ensures
        refine_strip(strip, doomed).len() > 0,
        refine_strip(strip, doomed) != strip ==> forall|i: int|
            0 <= i < refine_strip(strip, doomed).len() ==> !doomed.contains(#[trigger] refine_strip(strip, doomed)[i]),
{
    lemma_survivors_spared(strip, doomed);
}

} // verus!
