use vstd::prelude::*;
use crate::error::HinaError;
use crate::func::{gen_rand_str, is_alnum_seq, local_time_string};
use crate::record::{RMRecord, RecordView};
use crate::strutil::{
    base_name, base_name_spec, dec_str, parse_usize_ok, parse_usize_opt, path_join,
    path_join_spec, usize_to_string,
};
use crate::RAND_STR_LEN;

verus! {

/// The remove module: quarantines one resolved target per call.
#[derive(Debug, Clone, PartialEq, Eq, Hash)]
pub struct Remove;

/// The recycle-bin module: list, restore and purge the quarantined files.
#[derive(Debug, Clone, PartialEq, Eq, Hash)]
pub struct RecycleBin;

/// An instruction to the surrounding program: move the file at `from` to
/// `to`.  The library decides the moves; the program performs them.
#[derive(Debug, Clone)]
pub struct FileMove {
    pub from: String,
    pub to: String,
}

/// The quarantine path of `target` under `recycle_path`: the target's base
/// name with `suffix` appended.
pub open spec fn quarantine_path_spec(
    recycle_path: Seq<char>,
    target: Seq<char>,
    suffix: Seq<char>,
) -> Seq<char> {
    path_join_spec(recycle_path, base_name_spec(target) + suffix)
}

impl Remove {
    pub fn quarantine_path(recycle_path: &String, target: &String, suffix: &String) -> (r: String)
        ensures
            r@ == quarantine_path_spec(recycle_path@, target@, suffix@),
    {
        let mut name = base_name(target.as_str());
        name.append(suffix.as_str());
        path_join(recycle_path.as_str(), name.as_str())
    }

    /// The ledger record and the move for quarantining one resolved target
    /// with the given name suffix and timestamp.  The caller performs the
    /// move first and commits the record only when the move succeeded, so
    /// that a failed move leaves the ledger untouched.
    pub fn plan(recycle_path: &String, target: &String, suffix: &String, time: String) -> (r: (
        RMRecord,
        FileMove,
    ))
        ensures
            r.0@.file == quarantine_path_spec(recycle_path@, target@, suffix@),
            r.0@.src == target@,
            r.0@.delete_time == time@,
            r.1.from@ == target@,
            r.1.to@ == r.0@.file,
    {
        let quarantine = Remove::quarantine_path(recycle_path, target, suffix);
        let mv = FileMove { from: target.clone(), to: quarantine.clone() };
        let record = RMRecord::from(quarantine, target.clone(), time);
        (record, mv)
    }

    /// As `plan`, with a fresh random suffix and the present time.
    pub fn make_record(recycle_path: &String, target: &String) -> (r: (RMRecord, FileMove))
        ensures
            r.0@.src == target@,
            r.1.from@ == target@,
            r.1.to@ == r.0@.file,
            exists|sfx: Seq<char>|
                sfx.len() == RAND_STR_LEN && is_alnum_seq(sfx) && r.0@.file
                    == quarantine_path_spec(recycle_path@, target@, sfx),
    {
        let suffix = gen_rand_str(RAND_STR_LEN);
        let time = local_time_string();
        let r = Remove::plan(recycle_path, target, &suffix, time);
        proof {
            assert(suffix@.len() == RAND_STR_LEN && is_alnum_seq(suffix@) && r.0@.file
                == quarantine_path_spec(recycle_path@, target@, suffix@));
        }
        r
    }

    /// Append a committed quarantine move to the ledger.
    pub fn commit(rm_stack: &mut Vec<RMRecord>, record: RMRecord)
        ensures
            final(rm_stack)@ == old(rm_stack)@.push(record),
    {
        rm_stack.push(record);
    }
}

/// The line `show` prints for entry `i` of the ledger.
pub open spec fn show_line_spec(rec: RecordView, i: int) -> Seq<char> {
    dec_str(i) + ": File: "@ + rec.src + ", delete-time: "@ + rec.delete_time
}

/// Sequence of the numbers in a vector, for contracts.
pub open spec fn ints_of(v: Seq<usize>) -> Seq<int> {
    v.map_values(|x: usize| x as int)
}

/// `x` placed into a descending sequence, before the first entry it is not
/// below.
pub open spec fn insert_desc_spec(s: Seq<int>, x: int) -> Seq<int>
    decreases s.len(),
{
    if s.len() == 0 {
        seq![x]
    } else if x >= s[0] {
        seq![x] + s
    } else {
        seq![s[0]] + insert_desc_spec(s.drop_first(), x)
    }
}

/// The sequence sorted into descending order by insertion.
pub open spec fn sort_desc_spec(s: Seq<int>) -> Seq<int>
    decreases s.len(),
{
    if s.len() == 0 {
        s
    } else {
        insert_desc_spec(sort_desc_spec(s.drop_first()), s[0])
    }
}

/// The ledger after the indices are removed first-to-last; an index out of
/// range at its turn is skipped.
pub open spec fn remove_desc_spec<T>(s: Seq<T>, idxs: Seq<int>) -> Seq<T>
    decreases idxs.len(),
{
    if idxs.len() == 0 {
        s
    } else {
        let s2 = if 0 <= idxs[0] < s.len() {
            s.remove(idxs[0])
        } else {
            s
        };
        remove_desc_spec(s2, idxs.drop_first())
    }
}

proof fn lemma_insert_desc_at(s: Seq<int>, x: int, p: int)
    requires
        0 <= p <= s.len(),
        forall|j: int| 0 <= j < p ==> x < s[j],
        p < s.len() ==> x >= s[p],
    ensures
        insert_desc_spec(s, x) == s.take(p) + seq![x] + s.skip(p),
    decreases p,
{
    if p == 0 {
        if s.len() == 0 {
            assert(insert_desc_spec(s, x) =~= s.take(0) + seq![x] + s.skip(0));
        } else {
            assert(insert_desc_spec(s, x) =~= s.take(0) + seq![x] + s.skip(0));
        }
    } else {
        lemma_insert_desc_at(s.drop_first(), x, p - 1);
        assert(s.drop_first().take(p - 1) =~= s.take(p).drop_first());
        assert(s.drop_first().skip(p - 1) =~= s.skip(p));
        assert(seq![s[0]] + (s.drop_first().take(p - 1) + seq![x] + s.drop_first().skip(p - 1))
            =~= s.take(p) + seq![x] + s.skip(p));
    }
}

fn insert_desc(v: &mut Vec<usize>, x: usize)
    ensures
        ints_of(final(v)@) == insert_desc_spec(ints_of(old(v)@), x as int),
{
    let n = v.len();
    let mut p: usize = 0;
    while p < n && x < v[p]
        invariant
            p <= n,
            n == v@.len(),
            v@ == old(v)@,
            forall|j: int| 0 <= j < p ==> (x as int) < ints_of(v@)[j],
        decreases n - p,
    {
        p += 1;
    }
    proof {
        lemma_insert_desc_at(ints_of(v@), x as int, p as int);
    }
    v.insert(p, x);
    proof {
        assert(ints_of(v@) =~= ints_of(old(v)@).take(p as int) + seq![x as int] + ints_of(
            old(v)@,
        ).skip(p as int));
        assert(ints_of(old(v)@).take(p as int) =~= ints_of(old(v)@.take(p as int)));
    }
}

/// The given indices in descending numeric order.
pub fn sort_desc(v: &Vec<usize>) -> (r: Vec<usize>)
    ensures
        ints_of(r@) == sort_desc_spec(ints_of(v@)),
{
    let n = v.len();
    let mut r: Vec<usize> = Vec::new();
    let mut i = n;
    proof {
        assert(v@.skip(n as int) =~= Seq::<usize>::empty());
        assert(ints_of(r@) =~= sort_desc_spec(ints_of(v@.skip(n as int))));
    }
    while i > 0
        invariant
            i <= n,
            n == v@.len(),
            ints_of(r@) == sort_desc_spec(ints_of(v@.skip(i as int))),
        decreases i,
    {
        i -= 1;
        insert_desc(&mut r, v[i]);
        proof {
            assert(ints_of(v@.skip(i as int)).drop_first() =~= ints_of(v@.skip(i as int + 1)));
            assert(ints_of(v@.skip(i as int))[0] == v@[i as int] as int);
        }
    }
    proof {
        assert(v@.skip(0) =~= v@);
    }
    r
}

impl RecycleBin {
    /// The listing of the ledger, oldest entry first: one line per record
    /// with its index, original path and deletion time.
    pub fn show(rm_stack: &Vec<RMRecord>) -> (r: Vec<String>)
        ensures
            r@.len() == rm_stack@.len(),
            forall|i: int| 0 <= i < r@.len() ==> r@[i]@ == show_line_spec(rm_stack@[i]@, i),
    {
        let n = rm_stack.len();
        let mut out: Vec<String> = Vec::new();
        let mut i: usize = 0;
        while i < n
            invariant
                i <= n,
                n == rm_stack@.len(),
                out@.len() == i,
                forall|j: int| 0 <= j < i ==> out@[j]@ == show_line_spec(rm_stack@[j]@, j),
            decreases n - i,
        {
            let mut line = usize_to_string(i);
            line.append(": File: ");
            line.append(rm_stack[i].get_src().as_str());
            line.append(", delete-time: ");
            line.append(rm_stack[i].get_del_time().as_str());
            out.push(line);
            i += 1;
        }
        out
    }

    /// Decide one restore request.  `src_exists` reports whether the entry's
    /// original path is occupied on disk.  On success the caller performs
    /// the returned move and later removes the index from the ledger.
    pub fn restore_index(rm_stack: &Vec<RMRecord>, index: usize, src_exists: bool) -> (r: Result<
        (usize, FileMove),
        HinaError,
    >)
        ensures
            match r {
                Ok((i, mv)) => index < rm_stack@.len() && !src_exists && i == index && mv.from@
                    == rm_stack@[index as int]@.file && mv.to@ == rm_stack@[index as int]@.src,
                Err(e) => match e {
                    HinaError::OutOfIndexError(msg) => index >= rm_stack@.len() && msg@ == "Index "@
                        + dec_str(index as int) + " is out of recycle bin"@,
                    HinaError::FileExistError(msg) => index < rm_stack@.len() && src_exists && msg@
                        == rm_stack@[index as int]@.src + " already exists, cannot restore"@,
                    _ => false,
                },
            },
    {
        if index >= rm_stack.len() {
            let mut msg = "Index ".to_owned();
            let num = usize_to_string(index);
            msg.append(num.as_str());
            msg.append(" is out of recycle bin");
            return Err(HinaError::OutOfIndexError(msg));
        }
        let record = &rm_stack[index];
        if src_exists {
            let mut msg = record.get_src().clone();
            msg.append(" already exists, cannot restore");
            Err(HinaError::FileExistError(msg))
        } else {
            let mv = FileMove { from: record.get_file().clone(), to: record.get_src().clone() };
            Ok((index, mv))
        }
    }

    /// Remove the successfully restored indices from the ledger, largest
    /// first, so that a removal does not shift the entries still to remove.
    pub fn apply_restores(rm_stack: &mut Vec<RMRecord>, removed: &Vec<usize>)
        ensures
            final(rm_stack)@ == remove_desc_spec(
                old(rm_stack)@,
                sort_desc_spec(ints_of(removed@)),
            ),
    {
        let sorted = sort_desc(removed);
        let ghost sorted_ints = ints_of(sorted@);
        let n = sorted.len();
        let mut k: usize = 0;
        proof {
            assert(sorted_ints.skip(0) =~= sorted_ints);
        }
        while k < n
            invariant
                k <= n,
                n == sorted@.len(),
                sorted_ints == ints_of(sorted@),
                remove_desc_spec(old(rm_stack)@, sorted_ints) == remove_desc_spec(
                    rm_stack@,
                    sorted_ints.skip(k as int),
                ),
            decreases n - k,
        {
            let i = sorted[k];
            proof {
                assert(sorted_ints.skip(k as int)[0] == i as int);
                assert(sorted_ints.skip(k as int).drop_first() =~= sorted_ints.skip(k as int + 1));
            }
            if i < rm_stack.len() {
                rm_stack.remove(i);
            }
            k += 1;
        }
        proof {
            assert(sorted_ints.skip(n as int) =~= Seq::<int>::empty());
        }
    }

    /// Clear the ledger.  The caller then deletes every file under the
    /// returned quarantine directory.
    pub fn empty(recycle_path: &String, rm_stack: &mut Vec<RMRecord>) -> (r: String)
        ensures
            final(rm_stack)@.len() == 0,
            r@ == recycle_path@,
    {
        rm_stack.clear();
        recycle_path.clone()
    }
}

} // verus!

verus! {

/// What a recycle-bin invocation is asked to do.
#[derive(Debug, Clone, PartialEq, Eq, Hash)]
pub enum RecycleBinAction {
    Help,
    List,
    Restore,
    Empty,
    Nothing,
}

/// The indices named on a restore prompt line: comma-separated entries,
/// with the blank and the non-numeric ones dropped.
pub open spec fn restore_indices_spec(input: Seq<char>) -> Seq<int> {
    crate::func::split_clean_spec(input, seq![',']).filter_map(|t: Seq<char>| parse_usize_ok(t))
}

impl RecycleBin {
    /// Decide what the flags ask for, in the priority the module answers
    /// them: help, list, restore, empty, nothing.
    pub fn plan(flags: &crate::flag::Flag) -> (r: RecycleBinAction)
        ensures
            ({
                let m = flags.map_view();
                let help = m.contains_key("help"@);
                let list = m.contains_key("ls"@) || m.contains_key("list"@);
                let restore = m.contains_key("rs"@) || m.contains_key("restore"@);
                let empty = m.contains_key("ept"@) || m.contains_key("empty"@);
                r == if help {
                    RecycleBinAction::Help
                } else if list {
                    RecycleBinAction::List
                } else if restore {
                    RecycleBinAction::Restore
                } else if empty {
                    RecycleBinAction::Empty
                } else {
                    RecycleBinAction::Nothing
                }
            }),
    {
        let help = flags.parse_bool(vec!["help"]);
        if help {
            return RecycleBinAction::Help;
        }
        let list = flags.parse_bool(vec!["ls", "list"]);
        let restore = flags.parse_bool(vec!["rs", "restore"]);
        let empty = flags.parse_bool(vec!["ept", "empty"]);
        if list {
            RecycleBinAction::List
        } else if restore {
            RecycleBinAction::Restore
        } else if empty {
            RecycleBinAction::Empty
        } else {
            RecycleBinAction::Nothing
        }
    }

    /// Parse the line typed at the restore prompt.
    pub fn parse_restore_indices(input: &String) -> (r: Vec<usize>)
        ensures
            ints_of(r@) == restore_indices_spec(input@),
    {
        proof {
            reveal_strlit(",");
            assert(","@ =~= seq![',']);
        }
        let parts = match crate::func::split_and_remove_blank(input, ",") {
            Ok(v) => v,
            Err(_) => {
                proof {
                    assert(false);
                }
                Vec::new()
            },
        };
        let ghost toks = crate::strutil::views_of(parts@);
        let ghost f = |t: Seq<char>| parse_usize_ok(t);
        let mut out: Vec<usize> = Vec::new();
        let n = parts.len();
        let mut i: usize = 0;
        proof {
            assert(toks.take(0) =~= Seq::<Seq<char>>::empty());
            assert(ints_of(out@) =~= toks.take(0).filter_map(f));
        }
        while i < n
            invariant
                i <= n,
                n == parts@.len(),
                toks == crate::strutil::views_of(parts@),
                ints_of(out@) == toks.take(i as int).filter_map(f),
                f == (|t: Seq<char>| parse_usize_ok(t)),
            decreases n - i,
        {
            proof {
                assert(toks.take(i as int + 1).drop_last() =~= toks.take(i as int));
                assert(toks.take(i as int + 1).last() == toks[i as int]);
            }
            match parse_usize_opt(parts[i].as_str()) {
                Some(v) => {
                    out.push(v);
                    proof {
                        assert(ints_of(out@) =~= toks.take(i as int + 1).filter_map(f));
                    }
                },
                None => {
                    proof {
                        assert(ints_of(out@) =~= toks.take(i as int + 1).filter_map(f));
                    }
                },
            }
            i += 1;
        }
        proof {
            assert(toks.take(n as int) =~= toks);
        }
        out
    }
}

} // verus!
