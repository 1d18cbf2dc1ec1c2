use vstd::prelude::*;
use crate::record::RecordView;
use crate::recycle::{quarantine_path_spec, remove_desc_spec};
use crate::strutil::base_name_spec;
use crate::RAND_STR_LEN;

verus! {

/// A model of the filesystem: each occupied path maps to the identity of
/// the file sitting there.
pub open spec fn fs_move(fs: Map<Seq<char>, int>, from: Seq<char>, to: Seq<char>) -> Map<
    Seq<char>,
    int,
> {
    fs.remove(from).insert(to, fs[from])
}

/// When a quarantine move is possible: the target exists, and the fresh
/// quarantine path is unoccupied.
pub open spec fn remove_ok(fs: Map<Seq<char>, int>, r: RecordView) -> bool {
    fs.dom().contains(r.src) && !fs.dom().contains(r.file) && r.src != r.file
}

pub open spec fn apply_remove(fs: Map<Seq<char>, int>, r: RecordView) -> Map<Seq<char>, int> {
    fs_move(fs, r.src, r.file)
}

pub open spec fn removes_ok(fs: Map<Seq<char>, int>, recs: Seq<RecordView>) -> bool
    decreases recs.len(),
{
    recs.len() == 0 || (remove_ok(fs, recs[0]) && removes_ok(
        apply_remove(fs, recs[0]),
        recs.drop_first(),
    ))
}

pub open spec fn apply_removes(fs: Map<Seq<char>, int>, recs: Seq<RecordView>) -> Map<
    Seq<char>,
    int,
>
    decreases recs.len(),
{
    if recs.len() == 0 {
        fs
    } else {
        apply_removes(apply_remove(fs, recs[0]), recs.drop_first())
    }
}

/// When restoring the youngest remaining entry is possible: its quarantined
/// file is still there, and its original path is free.
pub open spec fn restore_last_ok(fs: Map<Seq<char>, int>, r: RecordView) -> bool {
    fs.dom().contains(r.file) && !fs.dom().contains(r.src)
}

pub open spec fn apply_restore(fs: Map<Seq<char>, int>, r: RecordView) -> Map<Seq<char>, int> {
    fs_move(fs, r.file, r.src)
}

/// Restore every record, youngest first.
pub open spec fn undo_all(fs: Map<Seq<char>, int>, recs: Seq<RecordView>) -> Map<Seq<char>, int>
    decreases recs.len(),
{
    if recs.len() == 0 {
        fs
    } else {
        undo_all(apply_restore(fs, recs.last()), recs.drop_last())
    }
}

/// Every restore along that way finds its guard satisfied.
pub open spec fn undo_all_ok(fs: Map<Seq<char>, int>, recs: Seq<RecordView>) -> bool
    decreases recs.len(),
{
    recs.len() == 0 || (restore_last_ok(fs, recs.last()) && undo_all_ok(
        apply_restore(fs, recs.last()),
        recs.drop_last(),
    ))
}

/// Moving a file and moving it back is no move at all.
proof fn lemma_move_undo(fs: Map<Seq<char>, int>, a: Seq<char>, b: Seq<char>)
    requires
        fs.dom().contains(a),
        !fs.dom().contains(b),
        a != b,
    ensures
        fs_move(fs_move(fs, a, b), b, a) == fs,
{
    assert(fs_move(fs_move(fs, a, b), b, a) =~= fs);
}

proof fn lemma_apply_removes_push(
    fs: Map<Seq<char>, int>,
    recs: Seq<RecordView>,
    r: RecordView,
)
    ensures
        apply_removes(fs, recs.push(r)) == apply_remove(apply_removes(fs, recs), r),
    decreases recs.len(),
{
    assert(recs.push(r)[0] == if recs.len() == 0 { r } else { recs[0] });
    assert(recs.push(r).len() == recs.len() + 1);
    assert(apply_removes(fs, recs.push(r)) == apply_removes(
        apply_remove(fs, recs.push(r)[0]),
        recs.push(r).drop_first(),
    ));
    if recs.len() == 0 {
        assert(recs.push(r).drop_first() =~= Seq::<RecordView>::empty());
        assert(apply_removes(apply_remove(fs, r), recs.push(r).drop_first()) == apply_remove(
            fs,
            r,
        ));
        assert(apply_removes(fs, recs) == fs);
    } else {
        assert(recs.push(r).drop_first() =~= recs.drop_first().push(r));
        lemma_apply_removes_push(apply_remove(fs, recs[0]), recs.drop_first(), r);
        assert(apply_removes(fs, recs) == apply_removes(apply_remove(fs, recs[0]), recs.drop_first()));
    }
}

proof fn lemma_removes_ok_push(fs: Map<Seq<char>, int>, recs: Seq<RecordView>, r: RecordView)
    ensures
        removes_ok(fs, recs.push(r)) <==> (removes_ok(fs, recs) && remove_ok(
            apply_removes(fs, recs),
            r,
        )),
    decreases recs.len(),
{
    assert(recs.push(r)[0] == if recs.len() == 0 { r } else { recs[0] });
    assert(recs.push(r).len() == recs.len() + 1);
    assert(removes_ok(fs, recs.push(r)) <==> (remove_ok(fs, recs.push(r)[0]) && removes_ok(
        apply_remove(fs, recs.push(r)[0]),
        recs.push(r).drop_first(),
    )));
    if recs.len() == 0 {
        assert(recs.push(r).drop_first() =~= Seq::<RecordView>::empty());
        assert(removes_ok(apply_remove(fs, r), recs.push(r).drop_first()));
        assert(removes_ok(fs, recs));
        assert(apply_removes(fs, recs) == fs);
    } else {
        assert(recs.push(r).drop_first() =~= recs.drop_first().push(r));
        lemma_apply_removes_push(fs, recs, r);
        lemma_removes_ok_push(apply_remove(fs, recs[0]), recs.drop_first(), r);
        assert(removes_ok(fs, recs) <==> (remove_ok(fs, recs[0]) && removes_ok(
            apply_remove(fs, recs[0]),
            recs.drop_first(),
        )));
        assert(apply_removes(fs, recs) == apply_removes(
            apply_remove(fs, recs[0]),
            recs.drop_first(),
        ));
    }
}

/// Round trip: quarantining any batch of files and then restoring them all,
/// youngest first, finds every restore guard satisfied and returns the
/// filesystem to its starting state.  With the ledger part below, restoring
/// all the new indices also returns the ledger to what it held before.
pub proof fn lemma_remove_restore_round_trip(fs0: Map<Seq<char>, int>, recs: Seq<RecordView>)
    requires
        removes_ok(fs0, recs),
    ensures
        undo_all_ok(apply_removes(fs0, recs), recs),
        undo_all(apply_removes(fs0, recs), recs) == fs0,
    decreases recs.len(),
{
    if recs.len() > 0 {
        let r = recs.last();
        let recs1 = recs.drop_last();
        assert(recs =~= recs1.push(r));
        lemma_removes_ok_push(fs0, recs1, r);
        lemma_apply_removes_push(fs0, recs1, r);
        let fs1 = apply_removes(fs0, recs1);
        let fs_after = apply_remove(fs1, r);
        assert(restore_last_ok(fs_after, r));
        lemma_move_undo(fs1, r.src, r.file);
        assert(apply_restore(fs_after, r) == fs1);
        lemma_remove_restore_round_trip(fs0, recs1);
    }
}

/// The ledger part of the round trip: removing the indices of the appended
/// records, youngest first, leaves exactly the ledger that was there before.
pub proof fn lemma_ledger_round_trip<T>(ledger0: Seq<T>, appended: Seq<T>)
    ensures
        remove_desc_spec(
            ledger0 + appended,
            Seq::new(appended.len(), |i: int| ledger0.len() + appended.len() - 1 - i),
        ) == ledger0,
{
    lemma_remove_desc_tail(ledger0 + appended, appended.len() as int);
    assert((ledger0 + appended).take(ledger0.len() as int) =~= ledger0);
}

/// Removing the last `k` indices, largest first, cuts the tail off.
pub proof fn lemma_remove_desc_tail<T>(s: Seq<T>, k: int)
    requires
        0 <= k <= s.len(),
    ensures
        remove_desc_spec(s, Seq::new(k as nat, |i: int| s.len() - 1 - i)) == s.take(s.len() - k),
    decreases k,
{
    let idxs = Seq::new(k as nat, |i: int| s.len() - 1 - i);
    if k == 0 {
        assert(s.take(s.len() as int) =~= s);
    } else {
        let s2 = s.remove(s.len() - 1);
        assert(s2 =~= s.drop_last());
        assert(idxs.drop_first() =~= Seq::new((k - 1) as nat, |i: int| s2.len() - 1 - i));
        lemma_remove_desc_tail(s2, k - 1);
        assert(s2.take(s2.len() - (k - 1)) =~= s.take(s.len() - k));
    }
}

// ---------------------------------------------------------------------------
// Uniqueness of quarantine paths
// ---------------------------------------------------------------------------

proof fn lemma_concat_inj(pre: Seq<char>, x: Seq<char>, y: Seq<char>)
    requires
        x.len() == y.len(),
        pre + x == pre + y,
    ensures
        x == y,
{
    assert forall|j: int| 0 <= j < x.len() implies x[j] == y[j] by {
        assert((pre + x)[pre.len() + j] == x[j]);
        assert((pre + y)[pre.len() + j] == y[j]);
    }
    assert(x =~= y);
}

/// Two removes of files with the same base name still get distinct
/// quarantine paths whenever their random suffixes differ.
pub proof fn lemma_quarantine_unique_pair(
    recycle_path: Seq<char>,
    target1: Seq<char>,
    target2: Seq<char>,
    sfx1: Seq<char>,
    sfx2: Seq<char>,
)
    requires
        base_name_spec(target1) == base_name_spec(target2),
        sfx1.len() == sfx2.len(),
        sfx1 != sfx2,
    ensures
        quarantine_path_spec(recycle_path, target1, sfx1) != quarantine_path_spec(
            recycle_path,
            target2,
            sfx2,
        ),
{
    let b = base_name_spec(target1);
    let pre = if recycle_path.len() == 0 {
        b
    } else if recycle_path[recycle_path.len() - 1] == '/' {
        recycle_path + b
    } else {
        recycle_path + seq!['/'] + b
    };
    assert(quarantine_path_spec(recycle_path, target1, sfx1) =~= pre + sfx1);
    assert(quarantine_path_spec(recycle_path, target2, sfx2) =~= pre + sfx2);
    if quarantine_path_spec(recycle_path, target1, sfx1) == quarantine_path_spec(
        recycle_path,
        target2,
        sfx2,
    ) {
        lemma_concat_inj(pre, sfx1, sfx2);
    }
}

/// Any batch of removes into one quarantine directory with pairwise
/// distinct suffixes of the fixed length yields pairwise distinct
/// quarantine paths, same base names or not.
pub proof fn lemma_quarantine_paths_unique(
    recycle_path: Seq<char>,
    targets: Seq<Seq<char>>,
    suffixes: Seq<Seq<char>>,
)
    requires
        targets.len() == suffixes.len(),
        forall|i: int, j: int|
            0 <= i < j < suffixes.len() ==> suffixes[i] != suffixes[j],
        forall|i: int| 0 <= i < suffixes.len() ==> suffixes[i].len() == RAND_STR_LEN,
        forall|i: int, j: int|
            0 <= i < j < targets.len() ==> base_name_spec(targets[i]) == base_name_spec(
                targets[j],
            ),
    ensures
        forall|i: int, j: int|
            0 <= i < j < targets.len() ==> quarantine_path_spec(
                recycle_path,
                targets[i],
                suffixes[i],
            ) != quarantine_path_spec(recycle_path, targets[j], suffixes[j]),
{
    assert forall|i: int, j: int| 0 <= i < j < targets.len() implies quarantine_path_spec(
        recycle_path,
        targets[i],
        suffixes[i],
    ) != quarantine_path_spec(recycle_path, targets[j], suffixes[j]) by {
        lemma_quarantine_unique_pair(
            recycle_path,
            targets[i],
            targets[j],
            suffixes[i],
            suffixes[j],
        );
    }
}

} // verus!

verus! {

// ---------------------------------------------------------------------------
// Index stability under descending removal
// ---------------------------------------------------------------------------

/// How many of the indices lie below `p`.
pub open spec fn count_lt(idxs: Seq<int>, p: int) -> int
    decreases idxs.len(),
{
    if idxs.len() == 0 {
        0
    } else {
        (if idxs[0] < p {
            1int
        } else {
            0int
        }) + count_lt(idxs.drop_first(), p)
    }
}

proof fn lemma_count_lt_all(idxs: Seq<int>, p: int)
    requires
        forall|a: int| 0 <= a < idxs.len() ==> #[trigger] idxs[a] < p,
    ensures
        count_lt(idxs, p) == idxs.len(),
    decreases idxs.len(),
{
    if idxs.len() > 0 {
        lemma_count_lt_all(idxs.drop_first(), p);
    }
}

/// Removing a strictly descending batch of in-range indices keeps every
/// other entry, each shifted down by the number of removed indices below
/// its position: the entries before the smallest removed index keep their
/// positions untouched.
pub proof fn lemma_index_stability<T>(s: Seq<T>, idxs: Seq<int>)
    requires
        forall|a: int, b: int| 0 <= a < b < idxs.len() ==> idxs[a] > idxs[b],
        forall|a: int| 0 <= a < idxs.len() ==> 0 <= #[trigger] idxs[a] < s.len(),
    ensures
        remove_desc_spec(s, idxs).len() == s.len() - idxs.len(),
        forall|p: int|
            0 <= p < s.len() && !idxs.contains(p) ==> {
                let q = p - count_lt(idxs, p);
                0 <= q < remove_desc_spec(s, idxs).len() && remove_desc_spec(s, idxs)[q] == s[p]
            },
    decreases idxs.len(),
{
    if idxs.len() == 0 {
    } else {
        let i0 = idxs[0];
        let rest = idxs.drop_first();
        let s2 = s.remove(i0);
        assert forall|a: int| 0 <= a < rest.len() implies 0 <= #[trigger] rest[a] < s2.len() by {
            assert(rest[a] == idxs[a + 1]);
            assert(idxs[0] > idxs[a + 1]);
        }
        lemma_index_stability(s2, rest);
        assert(remove_desc_spec(s, idxs) == remove_desc_spec(s2, rest));
        assert forall|p: int|
            0 <= p < s.len() && !idxs.contains(p) implies {
            let q = p - count_lt(idxs, p);
            0 <= q < remove_desc_spec(s, idxs).len() && remove_desc_spec(s, idxs)[q] == s[p]
        } by {
            assert(p != i0);
            assert(!rest.contains(p)) by {
                if rest.contains(p) {
                    let a = choose|a: int| 0 <= a < rest.len() && rest[a] == p;
                    assert(idxs[a + 1] == p);
                    assert(idxs.contains(p));
                }
            }
            if p < i0 {
                assert(s2[p] == s[p]);
                assert(count_lt(idxs, p) == count_lt(rest, p));
            } else {
                assert(s2[p - 1] == s[p]);
                assert(!rest.contains(p - 1)) by {
                    if rest.contains(p - 1) {
                        let a = choose|a: int| 0 <= a < rest.len() && rest[a] == p - 1;
                        assert(idxs[0] > idxs[a + 1]);
                    }
                }
                assert forall|a: int| 0 <= a < rest.len() implies #[trigger] rest[a] < p - 1 by {
                    assert(idxs[0] > idxs[a + 1]);
                    assert(rest[a] != p - 1);
                }
                lemma_count_lt_all(rest, p - 1);
                lemma_count_lt_all(rest, p);
                assert(count_lt(idxs, p) == 1 + rest.len());
            }
        }
    }
}

} // verus!
