use vstd::prelude::*;
use crate::flag::Flag;
use crate::strutil::{insert_spec, replace_spec, str_eq, str_insert, str_replace};
use crate::MAX_RECURSIVE_DEPTH;

verus! {

/// The module that gives each plain file a directory of its own.
#[derive(Debug, Clone, PartialEq, Eq, Hash)]
pub struct MakeNestedDir;

/// The batch renaming module.
#[derive(Debug, Clone, PartialEq, Eq, Hash)]
pub struct Rename;

/// The symlink/hardlink conversion module.
#[derive(Debug, Clone, PartialEq, Eq, Hash)]
pub struct LinkConvert;

/// How deep the recursive walks go: one level, or the fixed bound.
pub fn max_walk_depth(recursive: bool) -> (r: usize)
    ensures
        r == if recursive {
            MAX_RECURSIVE_DEPTH as int
        } else {
            0int
        },
{
    if recursive {
        MAX_RECURSIVE_DEPTH
    } else {
        0
    }
}

/// The renaming options one invocation works with, read from the flags.
#[derive(Debug, Clone)]
pub struct RenameOptions {
    pub input: String,
    pub output: String,
    pub append: String,
    pub num: usize,
    pub recursive: bool,
    pub symlink: bool,
}

impl Rename {
    /// The new name for `name`, or `None` when nothing would change:
    /// occurrences of `in_str` replaced by `out_str`, and `append_str`
    /// inserted at position `num` of the replaced name.
    pub fn rename_string(
        name: &String,
        in_str: &String,
        out_str: &String,
        append_str: &String,
        num: usize,
    ) -> (r: Option<String>)
        requires
            num as int <= replace_spec(name@, in_str@, out_str@).len(),
        ensures
            ({
                let renamed = insert_spec(
                    replace_spec(name@, in_str@, out_str@),
                    num as int,
                    append_str@,
                );
                match r {
                    Some(s) => s@ == renamed && renamed != name@,
                    None => renamed == name@,
                }
            }),
    {
        let replaced = str_replace(name.as_str(), in_str.as_str(), out_str.as_str());
        let renamed = str_insert(replaced.as_str(), num, append_str.as_str());
        if str_eq(renamed.as_str(), name.as_str()) {
            None
        } else {
            Some(renamed)
        }
    }

    /// Read the renaming options from the flags.
    pub fn plan(flags: &Flag) -> (r: RenameOptions)
        ensures
            ({
                let m = flags.map_view();
                &&& r.input@ == crate::flag::lookup_first(m, seq!["i", "input"])
                &&& r.output@ == crate::flag::lookup_first(m, seq!["o", "output"])
                &&& r.append@ == crate::flag::lookup_first(m, seq!["a", "append"])
                &&& r.num as int == crate::strutil::parse_usize_spec(
                    crate::flag::lookup_first(m, seq!["n", "num"]),
                )
                &&& r.recursive == (m.contains_key("r"@) || m.contains_key("recursive"@))
                &&& r.symlink == (m.contains_key("s"@) || m.contains_key("symlink"@))
            }),
    {
        let input = flags.parse_string(vec!["i", "input"]);
        let output = flags.parse_string(vec!["o", "output"]);
        let append = flags.parse_string(vec!["a", "append"]);
        let num = flags.parse_uint(vec!["n", "num"]);
        let recursive = flags.parse_bool(vec!["r", "recursive"]);
        let symlink = flags.parse_bool(vec!["s", "symlink"]);
        RenameOptions { input, output, append, num, recursive, symlink }
    }
}

/// The link-conversion options one invocation works with.
#[derive(Debug, Clone)]
pub struct LinkConvertOptions {
    pub s2l: bool,
    pub l2s: bool,
    pub recursive: bool,
    pub input: String,
}

impl LinkConvert {
    /// Read the conversion options from the flags.
    pub fn plan(flags: &Flag) -> (r: LinkConvertOptions)
        ensures
            ({
                let m = flags.map_view();
                &&& r.s2l == m.contains_key("s2l"@)
                &&& r.l2s == m.contains_key("l2s"@)
                &&& r.recursive == (m.contains_key("r"@) || m.contains_key("recursive"@))
                &&& r.input@ == crate::flag::lookup_first(m, seq!["i", "input"])
            }),
    {
        let s2l = flags.parse_bool(vec!["s2l"]);
        let l2s = flags.parse_bool(vec!["l2s"]);
        let recursive = flags.parse_bool(vec!["r", "recursive"]);
        let input = flags.parse_string(vec!["i", "input"]);
        LinkConvertOptions { s2l, l2s, recursive, input }
    }

    /// Pick the hard link's source among the paths that share its inode:
    /// only a single candidate is usable.
    pub fn pick_source(candidates: &Vec<String>) -> (r: Option<String>)
        ensures
            match r {
                Some(s) => candidates@.len() == 1 && s@ == candidates@[0]@,
                None => candidates@.len() != 1,
            },
    {
        if candidates.len() == 1 {
            Some(candidates[0].clone())
        } else {
            None
        }
    }
}

} // verus!

verus! {

/// Index of the last `.` in a file name, `-1` where there is none.
pub open spec fn last_dot(name: Seq<char>) -> int
    decreases name.len(),
{
    if name.len() == 0 {
        -1
    } else if name.last() == '.' {
        name.len() - 1
    } else {
        last_dot(name.drop_last())
    }
}

/// The stem of a file name: the part before its last `.`, except that a
/// name with no `.` after its first character is kept whole, the way
/// `Path::file_stem` keeps hidden files whole.
pub open spec fn file_stem_spec(name: Seq<char>) -> Seq<char> {
    let i = last_dot(name);
    if i <= 0 {
        name
    } else {
        name.take(i)
    }
}

proof fn lemma_last_dot_at(name: Seq<char>, i: int)
    requires
        0 <= i < name.len(),
        name[i] == '.',
        forall|j: int| i < j < name.len() ==> name[j] != '.',
    ensures
        last_dot(name) == i,
    decreases name.len(),
{
    if i < name.len() - 1 {
        lemma_last_dot_at(name.drop_last(), i);
    }
}

proof fn lemma_last_dot_none(name: Seq<char>)
    requires
        forall|j: int| 0 <= j < name.len() ==> name[j] != '.',
    ensures
        last_dot(name) == -1,
    decreases name.len(),
{
    if name.len() > 0 {
        lemma_last_dot_none(name.drop_last());
    }
}

impl MakeNestedDir {
    /// The directory a file is nested into: the file name's stem.
    pub fn dir_name(file_name: &String) -> (r: String)
        ensures
            r@ == file_stem_spec(file_name@),
    {
        let s = file_name.as_str();
        match crate::strutil::rfind_char(s, '.') {
            Some(i) => {
                proof {
                    lemma_last_dot_at(s@, i as int);
                }
                if i == 0 {
                    file_name.clone()
                } else {
                    s.substring_char(0, i).to_owned()
                }
            },
            None => {
                proof {
                    lemma_last_dot_none(s@);
                }
                file_name.clone()
            },
        }
    }
}

} // verus!
