//! Splitting a framebuffer among workers and joining it back.
use core::ops::Range;
use vstd::prelude::*;

verus! {

/// Start of part `i` when `n` items are cut into `p` parts: each part takes
/// the floor of what is left divided by the number of parts still to come.
pub open spec fn part_start(n: nat, p: nat, i: nat) -> nat
    decreases i,
{
    if i == 0 {
        0
    } else {
        let s = part_start(n, p, (i - 1) as nat);
        s + (n - s) as nat / (p - (i - 1)) as nat
    }
}

/// The items of all parts, in the order of the parts.
pub open spec fn joined<T>(parts: Seq<(Range<usize>, Vec<T>)>) -> Seq<T>
    decreases parts.len(),
{
    if parts.len() == 0 {
        Seq::empty()
    } else {
        joined(parts.drop_last()) + parts.last().1@
    }
}

/// `parts` is `buffer` cut into `p` consecutive parts, each paired with the
/// range of positions it holds.
pub open spec fn is_split_of<T>(parts: Seq<(Range<usize>, Vec<T>)>, buffer: Seq<T>, p: nat) -> bool {
    &&& parts.len() == p
    &&& forall|i: int|
        #![trigger parts[i]]
        0 <= i < p ==> {
            &&& parts[i].0.start <= parts[i].0.end <= buffer.len()
            &&& parts[i].0.start == part_start(buffer.len(), p, i as nat)
            &&& parts[i].0.end == part_start(buffer.len(), p, (i + 1) as nat)
            &&& parts[i].1@ == buffer.subrange(parts[i].0.start as int, parts[i].0.end as int)
        }
}

proof fn lemma_part_start_bounds(n: nat, p: nat, i: nat)
    requires
        i <= p,
    ensures
        part_start(n, p, i) <= n,
        i > 0 ==> part_start(n, p, (i - 1) as nat) <= part_start(n, p, i),
        i == p && p >= 1 ==> part_start(n, p, i) == n,
    decreases i,
{
    if i > 0 {
        lemma_part_start_bounds(n, p, (i - 1) as nat);
        let s = part_start(n, p, (i - 1) as nat);
        let d = (p - (i - 1)) as nat;
        assert((n - s) as nat / d <= (n - s) as nat) by (nonlinear_arith)
            requires d >= 1;
        if i == p {
            assert(d == 1);
            assert((n - s) as nat / d == (n - s) as nat) by (nonlinear_arith)
                requires d == 1;
            assert(part_start(n, p, i) == s + (n - s) as nat / d);
        }
    }
}

/// Cuts `buffer` into `parts` consecutive pieces of nearly equal length,
/// each paired with the range of positions it held, so that every worker
/// owns a disjoint slice of the output.
pub fn split_buffer<T>(buffer: Vec<T>, parts: usize) -> (r: Vec<(Range<usize>, Vec<T>)>)
    requires
        parts >= 1,
    ensures
        is_split_of(r@, buffer@, parts as nat),
        r@[0].0.start == 0,
        r@[parts - 1].0.end == buffer@.len(),
        forall|i: int| 0 < i < parts ==> #[trigger] r@[i].0.start == r@[i - 1].0.end,
{
    let total = buffer.len();
    let ghost n = buffer@.len();
    let ghost b = buffer@;
    let mut rest = buffer;
    let mut v: Vec<(Range<usize>, Vec<T>)> = Vec::new();
    let mut start: usize = 0;
    let mut left: usize = parts;
    assert(n <= usize::MAX);
    while left > 0
        invariant
            n <= usize::MAX,
            b.len() == n,
            left <= parts,
            v@.len() == parts - left,
            start == part_start(n, parts as nat, (parts - left) as nat),
            start <= n,
            rest@ == b.subrange(start as int, n as int),
            forall|i: int|
                #![trigger v@[i]]
                0 <= i < v@.len() ==> {
                    &&& v@[i].0.start <= v@[i].0.end <= n
                    &&& v@[i].0.start == part_start(n, parts as nat, i as nat)
                    &&& v@[i].0.end == part_start(n, parts as nat, (i + 1) as nat)
                    &&& v@[i].1@ == b.subrange(v@[i].0.start as int, v@[i].0.end as int)
                },
        decreases left,
    {
        let ghost i = (parts - left) as nat;
        assert(rest.len() == n - start);
        assert((parts - i) as nat == left);
        let cut = rest.len() / left;
        assert(cut <= rest.len()) by (nonlinear_arith)
            requires cut == rest.len() / left, left >= 1;
        let tail = rest.split_off(cut);
        let end = start + cut;
        proof {
            assert(part_start(n, parts as nat, i + 1) == start + (n - start) as nat / (parts - i) as nat);
            assert(end == part_start(n, parts as nat, i + 1));
            lemma_part_start_bounds(n, parts as nat, i + 1);
            assert(rest@ =~= b.subrange(start as int, end as int));
            assert(tail@ =~= b.subrange(end as int, n as int));
        }
        v.push((Range { start, end }, rest));
        rest = tail;
        start = end;
        left = left - 1;
    }
    proof {
        lemma_part_start_bounds(n, parts as nat, parts as nat);
        assert forall|i: int| 0 < i < parts implies #[trigger] v@[i].0.start == v@[i - 1].0.end by {
            assert(v@[i - 1].0.end == part_start(n, parts as nat, i as nat));
        }
    }
    v
}

/// Concatenates the pieces made by `split_buffer` back into one buffer.
pub fn join_parts<T>(parts: Vec<(Range<usize>, Vec<T>)>) -> (r: Vec<T>)
    ensures
        r@ == joined(parts@),
{
    let ghost all = parts@;
    let mut rest = parts;
    let mut out: Vec<T> = Vec::new();
    let ghost mut done: nat = 0;
    while rest.len() > 0
        invariant
            done <= all.len(),
            rest@ == all.subrange(done as int, all.len() as int),
            out@ == joined(all.subrange(0, done as int)),
        decreases rest.len(),
    {
        let (_, mut chunk) = rest.remove(0);
        proof {
            assert(all.subrange(0, (done + 1) as int).drop_last() =~= all.subrange(0, done as int));
            assert(all.subrange((done + 1) as int, all.len() as int) =~= rest@);
        }
        out.append(&mut chunk);
        proof {
            done = done + 1;
        }
    }
    proof {
        assert(all.subrange(0, all.len() as int) =~= all);
    }
    out
}

/// Joining the parts of a split gives back the buffer: no item is lost,
/// repeated or moved, whatever the number of parts.
pub proof fn lemma_join_of_split<T>(parts: Seq<(Range<usize>, Vec<T>)>, buffer: Seq<T>, p: nat)
    requires
        p >= 1,
        is_split_of(parts, buffer, p),
    ensures
        joined(parts) == buffer,
{
    lemma_joined_prefix(parts, buffer, p, p);
    lemma_part_start_bounds(buffer.len(), p, p);
    assert(parts.subrange(0, p as int) =~= parts);
    assert(buffer.subrange(0, buffer.len() as int) =~= buffer);
}

proof fn lemma_joined_prefix<T>(parts: Seq<(Range<usize>, Vec<T>)>, buffer: Seq<T>, p: nat, k: nat)
    requires
        k <= p,
        is_split_of(parts, buffer, p),
    ensures
        joined(parts.subrange(0, k as int)) == buffer.subrange(0, part_start(buffer.len(), p, k) as int),
    decreases k,
{
    lemma_part_start_bounds(buffer.len(), p, k);
    if k == 0 {
        assert(joined(parts.subrange(0, 0)) =~= buffer.subrange(0, 0));
    } else {
        lemma_joined_prefix(parts, buffer, p, (k - 1) as nat);
        let pre = parts.subrange(0, k as int);
        assert(pre.drop_last() =~= parts.subrange(0, k - 1));
        assert(pre.last() == parts[k - 1]);
        let s = part_start(buffer.len(), p, (k - 1) as nat);
        let e = part_start(buffer.len(), p, k);
        assert(buffer.subrange(0, s as int) + buffer.subrange(s as int, e as int)
            =~= buffer.subrange(0, e as int));
    }
}

} // verus!
