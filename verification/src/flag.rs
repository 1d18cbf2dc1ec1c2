use vstd::prelude::*;
use crate::strutil::{parse_usize_or_zero, parse_usize_spec, str_eq};

verus! {

/// Value in `m` of the first symbol that `m` knows; empty when none.
pub open spec fn lookup_first(m: Map<Seq<char>, Seq<char>>, syms: Seq<&str>) -> Seq<char>
    decreases syms.len(),
{
    if syms.len() == 0 {
        Seq::empty()
    } else if m.contains_key(syms[0]@) {
        m[syms[0]@]
    } else {
        lookup_first(m, syms.drop_first())
    }
}

/// The key/value map that an entry sequence denotes: a later entry with the
/// same key wins, the way repeated `HashMap::insert` calls would.
pub open spec fn assoc_map(v: Seq<(String, String)>) -> Map<Seq<char>, Seq<char>>
    decreases v.len(),
{
    if v.len() == 0 {
        Map::empty()
    } else {
        assoc_map(v.drop_last()).insert(v.last().0@, v.last().1@)
    }
}

pub proof fn lemma_assoc_map_last(v: Seq<(String, String)>, k: Seq<char>, i: int)
    requires
        0 <= i < v.len(),
        v[i].0@ == k,
        forall|j: int| i < j < v.len() ==> v[j].0@ != k,
    ensures
        assoc_map(v).contains_key(k),
        assoc_map(v)[k] == v[i].1@,
    decreases v.len(),
{
    if i == v.len() - 1 {
    } else {
        lemma_assoc_map_last(v.drop_last(), k, i);
    }
}

pub proof fn lemma_assoc_map_none(v: Seq<(String, String)>, k: Seq<char>)
    requires
        forall|j: int| 0 <= j < v.len() ==> v[j].0@ != k,
    ensures
        !assoc_map(v).contains_key(k),
    decreases v.len(),
{
    if v.len() > 0 {
        lemma_assoc_map_none(v.drop_last(), k);
    }
}

/// The parsed command-line flags: symbol/value pairs.
#[derive(Debug, Clone)]
pub struct Flag {
    pub flags: Vec<(String, String)>,
}

/// Value behind the last entry whose key is `key`, if any.
pub(crate) fn map_get<'a>(v: &'a Vec<(String, String)>, key: &str) -> (r: Option<&'a String>)
    ensures
        match r {
            Some(val) => assoc_map(v@).contains_key(key@) && val@ == assoc_map(v@)[key@],
            None => !assoc_map(v@).contains_key(key@),
        },
{
    let mut i = v.len();
    while i > 0
        invariant
            i <= v@.len(),
            forall|j: int| i <= j < v@.len() ==> v@[j].0@ != key@,
        decreases i,
    {
        i -= 1;
        if str_eq(v[i].0.as_str(), key) {
            proof {
                lemma_assoc_map_last(v@, key@, i as int);
            }
            return Some(&v[i].1);
        }
    }
    proof {
        lemma_assoc_map_none(v@, key@);
    }
    None
}

impl Flag {
    /// The map this flag bag denotes.
    pub open spec fn map_view(&self) -> Map<Seq<char>, Seq<char>> {
        assoc_map(self.flags@)
    }

    /// True when any of the symbols was given.
    pub fn parse_bool(&self, symbols: Vec<&str>) -> (r: bool)
        ensures
            r == exists|i: int|
                0 <= i < symbols@.len() && self.map_view().contains_key(symbols@[i]@),
    {
        let n = symbols.len();
        let mut i: usize = 0;
        while i < n
            invariant
                i <= n,
                n == symbols@.len(),
                forall|j: int| 0 <= j < i ==> !self.map_view().contains_key(symbols@[j]@),
            decreases n - i,
        {
            if map_get(&self.flags, symbols[i]).is_some() {
                proof {
                    assert(self.map_view().contains_key(symbols@[i as int]@));
                }
                return true;
            }
            i += 1;
        }
        false
    }

    /// Value of the first symbol that was given; empty when none was.
    pub fn parse_string(&self, symbols: Vec<&str>) -> (r: String)
        ensures
            r@ == lookup_first(self.map_view(), symbols@),
    {
        let n = symbols.len();
        let mut i: usize = 0;
        proof {
            assert(symbols@.skip(0) =~= symbols@);
        }
        while i < n
            invariant
                i <= n,
                n == symbols@.len(),
                lookup_first(self.map_view(), symbols@) == lookup_first(
                    self.map_view(),
                    symbols@.skip(i as int),
                ),
            decreases n - i,
        {
            proof {
                assert(symbols@.skip(i as int).drop_first() =~= symbols@.skip(i as int + 1));
                assert(symbols@.skip(i as int)[0] == symbols@[i as int]);
            }
            match map_get(&self.flags, symbols[i]) {
                Some(val) => {
                    return val.clone();
                },
                None => {},
            }
            i += 1;
        }
        proof {
            assert(symbols@.skip(n as int) =~= Seq::<&str>::empty());
        }
        String::new()
    }

    /// Value of the first symbol that was given, read as a number; zero when
    /// none was given or the value does not parse.
    pub fn parse_uint(&self, symbols: Vec<&str>) -> (r: usize)
        ensures
            r as int == parse_usize_spec(lookup_first(self.map_view(), symbols@)),
    {
        let s = self.parse_string(symbols);
        parse_usize_or_zero(s.as_str())
    }
}

} // verus!
