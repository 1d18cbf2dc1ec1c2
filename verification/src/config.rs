use vstd::prelude::*;
use crate::error::HinaError;
use crate::flag::{assoc_map, Flag};
use crate::fs::{LinkConvert, MakeNestedDir, Rename};
use crate::holder::PlaceHold;
use crate::process::Process;
use crate::recycle::{RecycleBin, Remove};
use crate::strutil::{
    lemma_find_pat, lemma_split_pat_nonempty, find_pat, match_at, split_pat, split_str, str_eq,
    views_of,
};

verus! {

/// The command module an invocation runs, chosen by the first argument.
#[derive(Debug, Clone, PartialEq, Eq, Hash)]
pub enum Target {
    Remove(Remove),
    RecycleBin(RecycleBin),
    MakeNestedDir(MakeNestedDir),
    Process(Process),
    Rename(Rename),
    LinkConvert(LinkConvert),
    Placehold(PlaceHold),
}

/// The module a command name stands for.
pub open spec fn module_of_spec(s: Seq<char>) -> Option<Target> {
    if s == "rm"@ {
        Some(Target::Remove(Remove))
    } else if s == "rb"@ {
        Some(Target::RecycleBin(RecycleBin))
    } else if s == "mkndir"@ {
        Some(Target::MakeNestedDir(MakeNestedDir))
    } else if s == "rn"@ {
        Some(Target::Rename(Rename))
    } else if s == "lc"@ {
        Some(Target::LinkConvert(LinkConvert))
    } else if s == "ps"@ {
        Some(Target::Process(Process))
    } else {
        None
    }
}

fn module_of(s: &str) -> (r: Option<Target>)
    ensures
        r == module_of_spec(s@),
{
    if str_eq(s, "rm") {
        Some(Target::Remove(Remove))
    } else if str_eq(s, "rb") {
        Some(Target::RecycleBin(RecycleBin))
    } else if str_eq(s, "mkndir") {
        Some(Target::MakeNestedDir(MakeNestedDir))
    } else if str_eq(s, "rn") {
        Some(Target::Rename(Rename))
    } else if str_eq(s, "lc") {
        Some(Target::LinkConvert(LinkConvert))
    } else if str_eq(s, "ps") {
        Some(Target::Process(Process))
    } else {
        None
    }
}

/// The key a flag argument sets: the text before the first `=`, its leading
/// dashes dropped.
pub open spec fn flag_key_spec(input: Seq<char>, index: int) -> Seq<char> {
    split_pat(input, seq!['='])[0].skip(index)
}

/// The value a flag argument sets: the text between the first and the
/// second `=`, or empty where there is none.
pub open spec fn flag_val_spec(input: Seq<char>) -> Seq<char> {
    let parts = split_pat(input, seq!['=']);
    if parts.len() >= 2 {
        parts[1]
    } else {
        Seq::empty()
    }
}

/// The flag map and argument list a raw argument sequence denotes: an
/// argument starting with `--` or `-` sets a flag, any other is kept in
/// order.
pub open spec fn classify_spec(items: Seq<Seq<char>>) -> (Map<Seq<char>, Seq<char>>, Seq<
    Seq<char>,
>)
    decreases items.len(),
{
    if items.len() == 0 {
        (Map::empty(), Seq::empty())
    } else {
        let (m, args) = classify_spec(items.drop_last());
        let x = items.last();
        if x.len() >= 2 && x[0] == '-' && x[1] == '-' {
            (m.insert(flag_key_spec(x, 2), flag_val_spec(x)), args)
        } else if x.len() >= 1 && x[0] == '-' {
            (m.insert(flag_key_spec(x, 1), flag_val_spec(x)), args)
        } else {
            (m, args.push(x))
        }
    }
}

/// What `build` makes of the raw arguments: the chosen module and the items
/// left for flag parsing, or nothing where the module name is unknown.
pub open spec fn build_parts_spec(input: Seq<Seq<char>>) -> Option<(Target, Seq<Seq<char>>)> {
    if input.len() < 2 {
        Some((Target::Placehold(PlaceHold), Seq::<Seq<char>>::empty()))
    } else if input.len() == 2 {
        if input[1].len() > 0 && input[1][0] == '-' {
            Some((Target::Placehold(PlaceHold), input.skip(1)))
        } else {
            match module_of_spec(input[1]) {
                Some(t) => Some((t, Seq::<Seq<char>>::empty())),
                None => None,
            }
        }
    } else {
        match module_of_spec(input[1]) {
            Some(t) => Some((t, input.skip(2))),
            None => None,
        }
    }
}

/// One parsed invocation: the module to run, its plain arguments, and its
/// flags.
#[derive(Debug, Clone)]
pub struct Config {
    target: Target,
    args: Vec<String>,
    flags: Flag,
}

impl Config {
    pub closed spec fn target_spec(&self) -> Target {
        self.target
    }

    pub closed spec fn args_spec(&self) -> Seq<Seq<char>> {
        views_of(self.args@)
    }

    pub closed spec fn flags_spec(&self) -> Map<Seq<char>, Seq<char>> {
        self.flags.map_view()
    }

    /// Record one flag argument in the map; `index` counts the leading
    /// dashes to drop.
    pub fn add_flag(input: &String, index: usize, map: &mut Vec<(String, String)>)
        requires
            index as int <= split_pat(input@, seq!['='])[0].len(),
        ensures
            assoc_map(final(map)@) == assoc_map(old(map)@).insert(
                flag_key_spec(input@, index as int),
                flag_val_spec(input@),
            ),
    {
        proof {
            reveal_strlit("=");
            assert("="@ =~= seq!['=']);
            lemma_split_pat_nonempty(input@, seq!['=']);
        }
        let parts = split_str(input.as_str(), "=");
        let first = &parts[0];
        let key_len = first.as_str().unicode_len();
        let key = first.as_str().substring_char(index, key_len).to_owned();
        proof {
            assert(first@.subrange(index as int, key_len as int) =~= first@.skip(index as int));
        }
        let val = if parts.len() >= 2 {
            parts[1].clone()
        } else {
            String::new()
        };
        map.push((key, val));
        proof {
            assert(map@.drop_last() =~= old(map)@);
        }
    }

    /// Split raw items into the flag map and the plain arguments.
    pub fn parse_flag_and_arg(input: &mut Vec<String>) -> (r: (Vec<(String, String)>, Vec<String>))
        ensures
            final(input)@ == old(input)@,
            assoc_map(r.0@) == classify_spec(views_of(old(input)@)).0,
            views_of(r.1@) == classify_spec(views_of(old(input)@)).1,
    {
        let ghost items = views_of(input@);
        let mut flags: Vec<(String, String)> = Vec::new();
        let mut args: Vec<String> = Vec::new();
        let n = input.len();
        let mut i: usize = 0;
        proof {
            assert(items.take(0) =~= Seq::<Seq<char>>::empty());
        }
        while i < n
            invariant
                i <= n,
                n == input@.len(),
                input@ == old(input)@,
                items == views_of(input@),
                assoc_map(flags@) == classify_spec(items.take(i as int)).0,
                views_of(args@) == classify_spec(items.take(i as int)).1,
            decreases n - i,
        {
            let x = &input[i];
            let xn = x.as_str().unicode_len();
            proof {
                assert(items.take(i as int + 1).drop_last() =~= items.take(i as int));
                assert(items.take(i as int + 1).last() == x@);
            }
            if xn >= 2 && x.as_str().get_char(0) == '-' && x.as_str().get_char(1) == '-' {
                proof {
                    lemma_flag_key_in_range(x@, 2);
                }
                Config::add_flag(x, 2, &mut flags);
            } else if xn >= 1 && x.as_str().get_char(0) == '-' {
                proof {
                    lemma_flag_key_in_range(x@, 1);
                }
                Config::add_flag(x, 1, &mut flags);
            } else {
                let piece = x.clone();
                proof {
                    crate::strutil::lemma_views_push(args@, piece);
                }
                args.push(piece);
            }
            i += 1;
        }
        proof {
            assert(items.take(n as int) =~= items);
        }
        (flags, args)
    }

    /// Parse a raw argument vector, program name first.
    pub fn build(input: &[String]) -> (r: Result<Config, HinaError>)
        ensures
            match r {
                Ok(c) => ({
                    &&& build_parts_spec(views_of(input@)) is Some
                    &&& c.target_spec() == build_parts_spec(views_of(input@)).unwrap().0
                    &&& c.flags_spec() == classify_spec(
                        build_parts_spec(views_of(input@)).unwrap().1,
                    ).0
                    &&& c.args_spec() == classify_spec(
                        build_parts_spec(views_of(input@)).unwrap().1,
                    ).1
                }),
                Err(e) => match e {
                    HinaError::ConfigParseError(msg) => input@.len() >= 2 && build_parts_spec(
                        views_of(input@),
                    ) is None && msg@ == "Illegal action '"@ + input@[1]@ + "'"@,
                    _ => false,
                },
            },
    {
        let n = input.len();
        let mut target = Target::Placehold(PlaceHold);
        let mut args_or_flags: Vec<String> = Vec::new();
        if n < 2 {
            proof {
                assert(views_of(args_or_flags@) =~= Seq::<Seq<char>>::empty());
            }
        } else if n == 2 {
            let second = &input[1];
            let sn = second.as_str().unicode_len();
            if sn >= 1 && second.as_str().get_char(0) == '-' {
                let piece = second.clone();
                proof {
                    crate::strutil::lemma_views_push(args_or_flags@, piece);
                }
                args_or_flags.push(piece);
                proof {
                    assert(views_of(args_or_flags@) =~= views_of(input@).skip(1));
                }
            } else {
                match module_of(second.as_str()) {
                    Some(t) => {
                        target = t;
                        proof {
                            assert(views_of(args_or_flags@) =~= Seq::<Seq<char>>::empty());
                        }
                    },
                    None => {
                        let mut msg = "Illegal action '".to_owned();
                        msg.append(second.as_str());
                        msg.append("'");
                        return Err(HinaError::ConfigParseError(msg));
                    },
                }
            }
        } else {
            match module_of(input[1].as_str()) {
                Some(t) => {
                    target = t;
                    let mut k: usize = 2;
                    proof {
                        assert(views_of(args_or_flags@) =~= views_of(input@).subrange(2, 2));
                    }
                    while k < n
                        invariant
                            2 <= k <= n,
                            n == input@.len(),
                            views_of(args_or_flags@) == views_of(input@).subrange(2, k as int),
                        decreases n - k,
                    {
                        let piece = input[k].clone();
                        proof {
                            crate::strutil::lemma_views_push(args_or_flags@, piece);
                            assert(views_of(input@).subrange(2, k as int).push(piece@)
                                =~= views_of(input@).subrange(2, k as int + 1));
                        }
                        args_or_flags.push(piece);
                        k += 1;
                    }
                    proof {
                        assert(views_of(input@).subrange(2, n as int) =~= views_of(input@).skip(2));
                    }
                },
                None => {
                    let mut msg = "Illegal action '".to_owned();
                    msg.append(input[1].as_str());
                    msg.append("'");
                    return Err(HinaError::ConfigParseError(msg));
                },
            }
        }
        let (flags, args) = Config::parse_flag_and_arg(&mut args_or_flags);
        let config = Config { target, args, flags: Flag { flags } };
        Ok(config)
    }

    pub fn get_target(&self) -> (r: &Target)
        ensures
            *r == self.target_spec(),
    {
        &self.target
    }

    pub fn get_args(&self) -> (r: &Vec<String>)
        ensures
            views_of(r@) == self.args_spec(),
    {
        &self.args
    }

    pub fn get_flags(&self) -> (r: &Flag)
        ensures
            r.map_view() == self.flags_spec(),
    {
        &self.flags
    }
}

/// A flag argument's leading dashes reach no further than its first `=`.
proof fn lemma_flag_key_in_range(x: Seq<char>, index: int)
    requires
        0 <= index <= x.len(),
        forall|j: int| 0 <= j < index ==> x[j] == '-',
    ensures
        index <= split_pat(x, seq!['='])[0].len(),
{
    lemma_find_pat(x, seq!['=']);
    match find_pat(x, seq!['=']) {
        Some(i) => {
            assert(split_pat(x, seq!['='])[0] == x.take(i));
            if i < index {
                assert(match_at(x, seq!['='], i));
                assert(x.subrange(i, i + 1)[0] == x[i]);
                assert(x[i] == '=');
            }
        },
        None => {
            assert(split_pat(x, seq!['='])[0] == x);
        },
    }
}

} // verus!
