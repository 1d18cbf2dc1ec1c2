use vstd::prelude::*;
use crate::error::HinaError;
use crate::flag::Flag;
use crate::func::{split_and_remove_blank, split_clean_spec};
use crate::strutil::{
    dec_str, eq_at, find_from, find_pat, is_digit, is_digit_char, is_space, is_space_char, join_from,
    join_spec, lemma_find_pat_skip_some, lemma_find_pat_skip_none, match_at, parse_usize_opt,
    parse_usize_spec, parse_usize_ok, replace_spec, split_nonblank, split_pat, split_str,
    str_replace, str_trim, trim_spec, views_of,
};

verus! {

/// The views of a sequence of borrowed strings.
pub open spec fn str_views(v: Seq<&str>) -> Seq<Seq<char>> {
    v.map_values(|x: &str| x@)
}

/// What `str::to_lowercase` returns; the result depends on the characters
/// alone.
pub uninterp spec fn lower_of(s: Seq<char>) -> Seq<char>;

/// Relies on `str::to_lowercase` of std: the lowercase equivalent of the
/// text, a function of its characters alone.
#[verifier::external_body]
fn lowercase(s: &str) -> (r: String)
    ensures
        r@ == lower_of(s@),
{
    s.to_lowercase()
}

// ---------------------------------------------------------------------------
// One line of `ps -ef` output
// ---------------------------------------------------------------------------

/// The whitespace-delimited fields of a process line.
pub open spec fn ps_tokens(s: Seq<char>) -> Seq<Seq<char>> {
    split_pat(s, seq![' ']).filter(|t: Seq<char>| t.len() > 0)
}

/// A line the process parser accepts: at least eight fields, the pid,
/// ppid and c fields numeric.
pub open spec fn ps_line_ok(s: Seq<char>) -> bool {
    let t = ps_tokens(s);
    &&& t.len() >= 8
    &&& parse_usize_ok(t[1]) is Some
    &&& parse_usize_ok(t[2]) is Some
    &&& parse_usize_ok(t[3]) is Some
}

/// Mathematical image of a parsed process line.
pub ghost struct InfoView {
    pub uid: Seq<char>,
    pub pid: int,
    pub ppid: int,
    pub c: int,
    pub stime: Seq<char>,
    pub tty: Seq<char>,
    pub time: Seq<char>,
    pub cmd: Seq<char>,
    pub origin: Seq<char>,
}

/// What a process line parses to.
pub open spec fn info_spec(s: Seq<char>) -> InfoView {
    let t = ps_tokens(s);
    InfoView {
        uid: t[0],
        pid: parse_usize_spec(t[1]),
        ppid: parse_usize_spec(t[2]),
        c: parse_usize_spec(t[3]),
        stime: t[4],
        tty: t[5],
        time: t[6],
        cmd: join_spec(t.skip(7), seq![' ']),
        origin: s,
    }
}

/// One process, as one line of `ps -ef` describes it.
#[derive(Debug)]
pub struct ProcessInfo {
    pub _uid: String,
    pub _pid: usize,
    pub _ppid: usize,
    pub _c: usize,
    pub _stime: String,
    pub _tty: String,
    pub _time: String,
    pub _cmd: String,
    pub _origin: String,
}

impl Clone for ProcessInfo {
    fn clone(&self) -> (r: Self)
        ensures
            r == *self,
    {
        ProcessInfo {
            _uid: self._uid.clone(),
            _pid: self._pid,
            _ppid: self._ppid,
            _c: self._c,
            _stime: self._stime.clone(),
            _tty: self._tty.clone(),
            _time: self._time.clone(),
            _cmd: self._cmd.clone(),
            _origin: self._origin.clone(),
        }
    }
}

impl View for ProcessInfo {
    type V = InfoView;

    open spec fn view(&self) -> InfoView {
        InfoView {
            uid: self._uid@,
            pid: self._pid as int,
            ppid: self._ppid as int,
            c: self._c as int,
            stime: self._stime@,
            tty: self._tty@,
            time: self._time@,
            cmd: self._cmd@,
            origin: self._origin@,
        }
    }
}

/// Does the process parser accept the line?
pub fn valid_ps_line(input: &str) -> (r: bool)
    ensures
        r == ps_line_ok(input@),
{
    proof {
        reveal_strlit(" ");
        assert(" "@ =~= seq![' ']);
    }
    let tokens = split_nonblank(input, " ");
    if tokens.len() < 8 {
        return false;
    }
    parse_usize_opt(tokens[1].as_str()).is_some() && parse_usize_opt(tokens[2].as_str()).is_some()
        && parse_usize_opt(tokens[3].as_str()).is_some()
}

impl ProcessInfo {
    /// Parse one line of `ps -ef` output.
    pub fn from(input: &str) -> (r: ProcessInfo)
        requires
            ps_line_ok(input@),
        ensures
            r@ == info_spec(input@),
    {
        proof {
            reveal_strlit(" ");
            assert(" "@ =~= seq![' ']);
        }
        let tokens = split_nonblank(input, " ");
        let pid = match parse_usize_opt(tokens[1].as_str()) {
            Some(v) => v,
            None => {
                proof {
                    assert(false);
                }
                0
            },
        };
        let ppid = match parse_usize_opt(tokens[2].as_str()) {
            Some(v) => v,
            None => {
                proof {
                    assert(false);
                }
                0
            },
        };
        let c = match parse_usize_opt(tokens[3].as_str()) {
            Some(v) => v,
            None => {
                proof {
                    assert(false);
                }
                0
            },
        };
        let cmd = join_from(&tokens, 7, " ");
        ProcessInfo {
            _uid: tokens[0].clone(),
            _pid: pid,
            _ppid: ppid,
            _c: c,
            _stime: tokens[4].clone(),
            _tty: tokens[5].clone(),
            _time: tokens[6].clone(),
            _cmd: cmd,
            _origin: input.to_owned(),
        }
    }
}

// ---------------------------------------------------------------------------
// One value line of an smaps block
// ---------------------------------------------------------------------------

/// First position at or after `i` that holds no whitespace.
pub open spec fn skip_spaces_spec(s: Seq<char>, i: int) -> int
    decreases s.len() - i,
        when 0 <= i <= s.len()
{
    if i < s.len() && is_space_char(s[i]) {
        skip_spaces_spec(s, i + 1)
    } else {
        i
    }
}

/// First position at or after `i` that holds no digit.
pub open spec fn skip_digits_spec(s: Seq<char>, i: int) -> int
    decreases s.len() - i,
        when 0 <= i <= s.len()
{
    if i < s.len() && is_digit_char(s[i]) {
        skip_digits_spec(s, i + 1)
    } else {
        i
    }
}

/// Start of the whitespace-free run that ends at `k`.
pub open spec fn name_start_spec(s: Seq<char>, k: int) -> int
    decreases k,
        when 0 <= k <= s.len()
{
    if k > 0 && !is_space_char(s[k - 1]) {
        name_start_spec(s, k - 1)
    } else {
        k
    }
}

/// What a memory value line reports: the field name, taken as the
/// whitespace-free run before the first colon, and the kB amount after it.
/// `None` for every line of any other shape.
pub open spec fn mem_line_spec(line: Seq<char>) -> Option<(Seq<char>, int)> {
    match find_pat(line, seq![':']) {
        None => None,
        Some(k) => {
            if !(0 <= k && k + 1 <= line.len()) {
                None
            } else {
                let ns = name_start_spec(line, k);
                let j = skip_spaces_spec(line, k + 1);
                let e = skip_digits_spec(line, j);
                if ns >= k || j == k + 1 || e == j {
                    None
                } else if e + 3 <= line.len() && line.subrange(e, e + 3) == " kB"@ {
                    Some((line.subrange(ns, k), parse_usize_spec(line.subrange(j, e))))
                } else {
                    None
                }
            }
        },
    }
}

/// Parse one line of an smaps block as a memory value line.
pub fn mem_extract(line: &str) -> (r: Option<(String, usize)>)
    ensures
        match r {
            Some(p) => mem_line_spec(line@) == Some((p.0@, p.1 as int)),
            None => mem_line_spec(line@) is None,
        },
{
    proof {
        reveal_strlit(":");
        assert(":"@ =~= seq![':']);
    }
    let n = line.unicode_len();
    let k = match find_from(line, ":", 0) {
        Some(k) => {
            proof {
                lemma_find_pat_skip_some(line@, seq![':'], 0, k as int);
                assert(line@.skip(0) =~= line@);
            }
            k
        },
        None => {
            proof {
                lemma_find_pat_skip_none(line@, seq![':'], 0);
                assert(line@.skip(0) =~= line@);
            }
            return None;
        },
    };
    proof {
        assert(line@.subrange(k as int, k as int + 1) =~= seq![':']);
    }
    let mut ns = k;
    while ns > 0 && !is_space(line.get_char(ns - 1))
        invariant
            0 <= ns <= k,
            k < n,
            n == line@.len(),
            name_start_spec(line@, k as int) == name_start_spec(line@, ns as int),
        decreases ns,
    {
        ns -= 1;
    }
    let mut j = k + 1;
    while j < n && is_space(line.get_char(j))
        invariant
            k + 1 <= j <= n,
            k < n,
            n == line@.len(),
            skip_spaces_spec(line@, k as int + 1) == skip_spaces_spec(line@, j as int),
        decreases n - j,
    {
        j += 1;
    }
    proof {
        assert(skip_spaces_spec(line@, j as int) == j as int);
    }
    let mut e = j;
    while e < n && is_digit(line.get_char(e))
        invariant
            j <= e <= n,
            n == line@.len(),
            skip_digits_spec(line@, j as int) == skip_digits_spec(line@, e as int),
        decreases n - e,
    {
        e += 1;
    }
    proof {
        assert(skip_digits_spec(line@, e as int) == e as int);
        assert(name_start_spec(line@, ns as int) == ns as int);
    }
    if ns >= k || j == k + 1 || e == j {
        return None;
    }
    if e <= n - 3 && eq_at(line, " kB", e) {
        proof {
            reveal_strlit(" kB");
        }
        let name = line.substring_char(ns, k).to_owned();
        let amount = crate::strutil::parse_usize_or_zero(line.substring_char(j, e));
        Some((name, amount))
    } else {
        proof {
            if e + 3 <= line@.len() && line@.subrange(e as int, e as int + 3) == " kB"@ {
                assert(match_at(line@, " kB"@, e as int)) by {
                    reveal_strlit(" kB");
                }
            }
        }
        None
    }
}

} // verus!

verus! {

/// The process inspection module.
#[derive(Debug, Clone, PartialEq, Eq, Hash)]
pub struct Process;

/// What a process-module invocation is asked to do.
#[derive(Debug, Clone)]
pub enum ProcessAction {
    Help,
    Ancestor(usize),
    Dump,
    Xray(String, bool),
    ShowAll,
    ShowSpec(String),
}

impl Process {
    /// Decide what the flags ask for, in the priority the module answers
    /// them: help, ancestor tracking, dump, memory x-ray, then the process
    /// listing, filtered when a pattern was given.
    pub fn plan(flags: &Flag) -> (r: ProcessAction)
        ensures
            ({
                let m = flags.map_view();
                let help = m.contains_key("help"@);
                let track = parse_usize_spec(crate::flag::lookup_first(m, seq!["t", "track"]));
                let dump = m.contains_key("d"@) || m.contains_key("dump"@);
                let xray = m.contains_key("x"@) || m.contains_key("xray"@);
                let pattern = crate::flag::lookup_first(m, seq!["i", "input"]);
                let sort_by = crate::flag::lookup_first(m, seq!["s", "sort-by"]);
                let human = m.contains_key("h"@) || m.contains_key("human-readable"@);
                match r {
                    ProcessAction::Help => help,
                    ProcessAction::Ancestor(id) => !help && track != 0 && id as int == track,
                    ProcessAction::Dump => !help && track == 0 && dump,
                    ProcessAction::Xray(s, h) => !help && track == 0 && !dump && xray && s@
                        == sort_by && h == human,
                    ProcessAction::ShowAll => !help && track == 0 && !dump && !xray
                        && pattern.len() == 0,
                    ProcessAction::ShowSpec(p) => !help && track == 0 && !dump && !xray && p@
                        == pattern && pattern.len() > 0,
                }
            }),
    {
        let help = flags.parse_bool(vec!["help"]);
        if help {
            return ProcessAction::Help;
        }
        let spec_pattern = flags.parse_string(vec!["i", "input"]);
        let ans_id = flags.parse_uint(vec!["t", "track"]);
        let dump = flags.parse_bool(vec!["d", "dump"]);
        let xray = flags.parse_bool(vec!["x", "xray"]);
        let sort_by = flags.parse_string(vec!["s", "sort-by"]);
        let human_readable = flags.parse_bool(vec!["h", "human-readable"]);
        if ans_id != 0 {
            return ProcessAction::Ancestor(ans_id);
        }
        if dump {
            return ProcessAction::Dump;
        }
        if xray {
            return ProcessAction::Xray(sort_by, human_readable);
        }
        if spec_pattern.as_str().unicode_len() == 0 {
            ProcessAction::ShowAll
        } else {
            ProcessAction::ShowSpec(spec_pattern)
        }
    }
}

} // verus!

verus! {

// ---------------------------------------------------------------------------
// One mapped region of an smaps block
// ---------------------------------------------------------------------------

/// The key/value map an entry list denotes; a later entry wins.
pub open spec fn maps_view(v: Seq<(String, usize)>) -> Map<Seq<char>, int>
    decreases v.len(),
{
    if v.len() == 0 {
        Map::empty()
    } else {
        maps_view(v.drop_last()).insert(v.last().0@, v.last().1 as int)
    }
}

pub proof fn lemma_maps_view_contains(v: Seq<(String, usize)>, k: Seq<char>)
    ensures
        maps_view(v).dom().contains(k) <==> exists|l: int| 0 <= l < v.len() && v[l].0@ == k,
    decreases v.len(),
{
    if v.len() > 0 {
        lemma_maps_view_contains(v.drop_last(), k);
        if v.last().0@ == k {
            assert(v[v.len() - 1].0@ == k);
        } else if maps_view(v).dom().contains(k) {
            let l = choose|l: int| 0 <= l < v.drop_last().len() && v.drop_last()[l].0@ == k;
            assert(v[l].0@ == k);
        } else {
            if exists|l: int| 0 <= l < v.len() && v[l].0@ == k {
                let l = choose|l: int| 0 <= l < v.len() && v[l].0@ == k;
                assert(v.drop_last()[l].0@ == k);
            }
        }
    }
}

pub proof fn lemma_maps_view_last(v: Seq<(String, usize)>, k: Seq<char>, i: int)
    requires
        0 <= i < v.len(),
        v[i].0@ == k,
        forall|j: int| i < j < v.len() ==> v[j].0@ != k,
    ensures
        maps_view(v).dom().contains(k),
        maps_view(v)[k] == v[i].1 as int,
    decreases v.len(),
{
    if i == v.len() - 1 {
    } else {
        lemma_maps_view_last(v.drop_last(), k, i);
    }
}

pub proof fn lemma_maps_view_none(v: Seq<(String, usize)>, k: Seq<char>)
    requires
        forall|j: int| 0 <= j < v.len() ==> v[j].0@ != k,
    ensures
        !maps_view(v).dom().contains(k),
    decreases v.len(),
{
    if v.len() > 0 {
        lemma_maps_view_none(v.drop_last(), k);
    }
}

/// Value behind the last entry whose key is `key`, if any.
fn maps_get(v: &Vec<(String, usize)>, key: &str) -> (r: Option<usize>)
    ensures
        match r {
            Some(val) => maps_view(v@).dom().contains(key@) && val as int == maps_view(v@)[key@],
            None => !maps_view(v@).dom().contains(key@),
        },
{
    let mut i = v.len();
    while i > 0
        invariant
            i <= v@.len(),
            forall|j: int| i <= j < v@.len() ==> v@[j].0@ != key@,
        decreases i,
    {
        i -= 1;
        if crate::strutil::str_eq(v[i].0.as_str(), key) {
            proof {
                lemma_maps_view_last(v@, key@, i as int);
            }
            return Some(v[i].1);
        }
    }
    proof {
        lemma_maps_view_none(v@, key@);
    }
    None
}

/// The memory fields of the block's lines, names folded to lower case.
pub open spec fn block_maps_spec(lines: Seq<Seq<char>>) -> Map<Seq<char>, int>
    decreases lines.len(),
{
    if lines.len() == 0 {
        Map::empty()
    } else {
        let m = block_maps_spec(lines.drop_last());
        match mem_line_spec(lines.last()) {
            Some(p) => m.insert(lower_of(p.0), p.1),
            None => m,
        }
    }
}

/// A block the region parser accepts: its first line has the five region
/// fields, the first of them an address range.
pub open spec fn meta_block_ok(lines: Seq<Seq<char>>) -> bool {
    &&& lines.len() >= 1
    &&& split_clean_spec(lines[0], seq![' ']).len() >= 5
    &&& split_pat(split_clean_spec(lines[0], seq![' '])[0], seq!['-']).len() >= 2
}

/// Mathematical image of one parsed region block.
pub ghost struct MetaView {
    pub start: Seq<char>,
    pub end: Seq<char>,
    pub mode: Seq<char>,
    pub offset: Seq<char>,
    pub device: Seq<char>,
    pub inode: Seq<char>,
    pub name: Seq<char>,
    pub maps: Map<Seq<char>, int>,
    pub cmd: Seq<char>,
}

/// What a region block parses to.
pub open spec fn meta_spec(lines: Seq<Seq<char>>, cmdline: Seq<char>) -> MetaView {
    let keys = split_clean_spec(lines[0], seq![' ']);
    let range = split_pat(keys[0], seq!['-']);
    MetaView {
        start: range[0],
        end: range[1],
        mode: keys[1],
        offset: keys[2],
        device: keys[3],
        inode: keys[4],
        name: if keys.len() > 5 {
            keys[5]
        } else {
            Seq::empty()
        },
        maps: block_maps_spec(lines),
        cmd: trim_spec(replace_spec(cmdline, seq!['\u{0}'], seq![' '])),
    }
}

/// One mapped region of a process, with its memory fields.
#[derive(Debug, Clone)]
pub struct ProcessMapMeta {
    _start: String,
    _end: String,
    _mode: String,
    _offset: String,
    _device: String,
    _inode: String,
    _name: String,
    _maps: Vec<(String, usize)>,
    _cmd: String,
}

impl View for ProcessMapMeta {
    type V = MetaView;

    closed spec fn view(&self) -> MetaView {
        MetaView {
            start: self._start@,
            end: self._end@,
            mode: self._mode@,
            offset: self._offset@,
            device: self._device@,
            inode: self._inode@,
            name: self._name@,
            maps: maps_view(self._maps@),
            cmd: self._cmd@,
        }
    }
}

impl ProcessMapMeta {
    /// Parse one smaps block: the region fields from its first line, and
    /// the memory fields from the lines after it.
    pub fn from(smap_block: &Vec<&str>, cmdline: &String) -> (r: Result<ProcessMapMeta, HinaError>)
        requires
            meta_block_ok(str_views(smap_block@)),
        ensures
            match r {
                Ok(m) => m@ == meta_spec(str_views(smap_block@), cmdline@),
                Err(_) => false,
            },
    {
        proof {
            reveal_strlit(" ");
            reveal_strlit("-");
            reveal_strlit("\0");
            assert(" "@ =~= seq![' ']);
            assert("-"@ =~= seq!['-']);
            assert("\0"@ =~= seq!['\u{0}']);
        }
        let first = smap_block[0].to_owned();
        let keys = match split_and_remove_blank(&first, " ") {
            Ok(v) => v,
            Err(_) => {
                proof {
                    assert(false);
                }
                Vec::new()
            },
        };
        let range = split_str(keys[0].as_str(), "-");
        let name = if keys.len() > 5 {
            keys[5].clone()
        } else {
            String::new()
        };
        let n = smap_block.len();
        let mut maps: Vec<(String, usize)> = Vec::new();
        let mut i: usize = 0;
        let ghost lines = str_views(smap_block@);
        proof {
            assert(lines.take(0) =~= Seq::<Seq<char>>::empty());
        }
        while i < n
            invariant
                i <= n,
                n == smap_block@.len(),
                lines == str_views(smap_block@),
                maps_view(maps@) == block_maps_spec(lines.take(i as int)),
            decreases n - i,
        {
            proof {
                assert(lines.take(i as int + 1).drop_last() =~= lines.take(i as int));
                assert(lines.take(i as int + 1).last() == lines[i as int]);
            }
            match mem_extract(smap_block[i]) {
                Some(p) => {
                    let low = lowercase(p.0.as_str());
                    let ghost prev = maps@;
                    maps.push((low, p.1));
                    proof {
                        assert(maps@.drop_last() =~= prev);
                    }
                },
                None => {},
            }
            i += 1;
        }
        proof {
            assert(lines.take(n as int) =~= lines);
        }
        let replaced = str_replace(cmdline.as_str(), "\0", " ");
        let cmd = str_trim(replaced.as_str());
        Ok(
            ProcessMapMeta {
                _start: range[0].clone(),
                _end: range[1].clone(),
                _mode: keys[1].clone(),
                _offset: keys[2].clone(),
                _device: keys[3].clone(),
                _inode: keys[4].clone(),
                _name: name,
                _maps: maps,
                _cmd: cmd,
            },
        )
    }
}

} // verus!

verus! {

// ---------------------------------------------------------------------------
// The memory totals of one process
// ---------------------------------------------------------------------------

/// The totals map a u64 entry list denotes; a later entry wins.
pub open spec fn totals_view(v: Seq<(String, u64)>) -> Map<Seq<char>, int>
    decreases v.len(),
{
    if v.len() == 0 {
        Map::empty()
    } else {
        totals_view(v.drop_last()).insert(v.last().0@, v.last().1 as int)
    }
}

proof fn lemma_totals_view_last(v: Seq<(String, u64)>, k: Seq<char>, i: int)
    requires
        0 <= i < v.len(),
        v[i].0@ == k,
        forall|j: int| i < j < v.len() ==> v[j].0@ != k,
    ensures
        totals_view(v).dom().contains(k),
        totals_view(v)[k] == v[i].1 as int,
    decreases v.len(),
{
    if i < v.len() - 1 {
        lemma_totals_view_last(v.drop_last(), k, i);
    }
}

proof fn lemma_totals_view_none(v: Seq<(String, u64)>, k: Seq<char>)
    requires
        forall|j: int| 0 <= j < v.len() ==> v[j].0@ != k,
    ensures
        !totals_view(v).dom().contains(k),
    decreases v.len(),
{
    if v.len() > 0 {
        lemma_totals_view_none(v.drop_last(), k);
    }
}

/// Value behind the last entry whose key is `key`, if any.
fn totals_get(v: &Vec<(String, u64)>, key: &str) -> (r: Option<u64>)
    ensures
        match r {
            Some(val) => totals_view(v@).dom().contains(key@) && val as int == totals_view(v@)[
                key@
            ],
            None => !totals_view(v@).dom().contains(key@),
        },
{
    let mut i = v.len();
    while i > 0
        invariant
            i <= v@.len(),
            forall|j: int| i <= j < v@.len() ==> v@[j].0@ != key@,
        decreases i,
    {
        i -= 1;
        if crate::strutil::str_eq(v[i].0.as_str(), key) {
            proof {
                lemma_totals_view_last(v@, key@, i as int);
            }
            return Some(v[i].1);
        }
    }
    proof {
        lemma_totals_view_none(v@, key@);
    }
    None
}

/// The views of the regions.
pub open spec fn metas_views(v: Seq<ProcessMapMeta>) -> Seq<MetaView> {
    v.map_values(|m: ProcessMapMeta| m@)
}

/// Sum of one memory field over the regions.
pub open spec fn sum_for_key(data: Seq<MetaView>, k: Seq<char>) -> int
    decreases data.len(),
{
    if data.len() == 0 {
        0
    } else {
        sum_for_key(data.drop_last(), k) + data.last().maps[k]
    }
}

/// What the totals need of the regions: at least one region; the fields of
/// the first region present in every region; the amounts machine-bounded;
/// each total within u64.
pub open spec fn map_from_ok(data: Seq<MetaView>) -> bool {
    &&& data.len() > 0
    &&& forall|i: int, k: Seq<char>|
        0 <= i < data.len() && data[0].maps.dom().contains(k)
            ==> #[trigger] data[i].maps.dom().contains(k)
    &&& forall|i: int, k: Seq<char>|
        0 <= i < data.len() && #[trigger] data[i].maps.dom().contains(k) ==> 0 <= data[i].maps[k]
            <= usize::MAX as int
    &&& forall|k: Seq<char>|
        data[0].maps.dom().contains(k) ==> #[trigger] sum_for_key(data, k) <= u64::MAX as int
}

proof fn lemma_sum_prefix(data: Seq<MetaView>, k: Seq<char>, j: int)
    requires
        0 <= j <= data.len(),
        forall|i: int|
            0 <= i < data.len() ==> #[trigger] data[i].maps.dom().contains(k) && data[i].maps[k]
                >= 0,
    ensures
        sum_for_key(data.take(j), k) <= sum_for_key(data, k),
        sum_for_key(data.take(j), k) >= 0,
    decreases data.len() - j,
{
    if j == data.len() {
        assert(data.take(j) =~= data);
        lemma_sum_nonneg(data, k);
    } else {
        lemma_sum_prefix(data, k, j + 1);
        assert(data.take(j + 1).drop_last() =~= data.take(j));
        assert(data.take(j + 1).last() == data[j]);
        assert(data[j].maps.dom().contains(k));
        assert(sum_for_key(data.take(j + 1), k) == sum_for_key(data.take(j), k)
            + data[j].maps[k]);
        let dtj = data.take(j);
        assert forall|i: int|
            0 <= i < dtj.len() implies #[trigger] dtj[i].maps.dom().contains(k) && dtj[i].maps[k]
            >= 0 by {
            assert(dtj[i] == data[i]);
            assert(data[i].maps.dom().contains(k));
        }
        lemma_sum_nonneg(dtj, k);
    }
}

proof fn lemma_sum_nonneg(data: Seq<MetaView>, k: Seq<char>)
    requires
        forall|i: int|
            0 <= i < data.len() ==> #[trigger] data[i].maps.dom().contains(k) && data[i].maps[k]
                >= 0,
    ensures
        sum_for_key(data, k) >= 0,
    decreases data.len(),
{
    if data.len() > 0 {
        let dl = data.drop_last();
        assert forall|i: int|
            0 <= i < dl.len() implies #[trigger] dl[i].maps.dom().contains(k) && dl[i].maps[k]
            >= 0 by {
            assert(dl[i] == data[i]);
            assert(data[i].maps.dom().contains(k));
        }
        lemma_sum_nonneg(dl, k);
        assert(data.last() == data[data.len() - 1]);
        assert(data[data.len() - 1].maps.dom().contains(k));
    }
}

/// Mathematical image of one process's memory map.
pub ghost struct ProcMapView {
    pub data: Seq<MetaView>,
    pub total: Map<Seq<char>, int>,
}

/// The parsed memory map of one process: its regions and the per-field
/// totals over them.
#[derive(Debug, Clone)]
pub struct ProcessMap {
    _data: Vec<ProcessMapMeta>,
    _total: Vec<(String, u64)>,
}

impl View for ProcessMap {
    type V = ProcMapView;

    closed spec fn view(&self) -> ProcMapView {
        ProcMapView { data: metas_views(self._data@), total: totals_view(self._total@) }
    }
}

impl ProcessMap {
    /// Total every field of the first region over all the regions.
    pub fn from(input: Vec<ProcessMapMeta>) -> (r: ProcessMap)
        requires
            map_from_ok(metas_views(input@)),
        ensures
            r@.data == metas_views(input@),
            forall|k: Seq<char>| #[trigger]
                r@.total.dom().contains(k) <==> metas_views(input@)[0].maps.dom().contains(k),
            forall|k: Seq<char>|
                #[trigger] r@.total.dom().contains(k) ==> r@.total[k] == sum_for_key(
                    metas_views(input@),
                    k,
                ),
    {
        let ghost metas = metas_views(input@);
        let mut total: Vec<(String, u64)> = Vec::new();
        let nk = input[0]._maps.len();
        let nd = input.len();
        let mut i: usize = 0;
        while i < nk
            invariant
                i <= nk,
                nk == input@[0]._maps@.len(),
                nd == input@.len(),
                nd >= 1,
                metas == metas_views(input@),
                map_from_ok(metas),
                forall|k: Seq<char>| #[trigger]
                    totals_view(total@).dom().contains(k) ==> metas[0].maps.dom().contains(k),
                forall|k: Seq<char>|
                    #[trigger] totals_view(total@).dom().contains(k) ==> totals_view(total@)[k]
                        == sum_for_key(metas, k),
                forall|l: int|
                    0 <= l < i ==> totals_view(total@).dom().contains(
                        #[trigger] input@[0]._maps@[l].0@,
                    ),
            decreases nk - i,
        {
            let key = input[0]._maps[i].0.clone();
            proof {
                assert(metas[0] == input@[0]@);
                lemma_maps_view_contains(input@[0]._maps@, key@);
                assert(metas[0].maps.dom().contains(key@));
            }
            let mut cal: u64 = 0;
            let mut d: usize = 0;
            proof {
                assert(metas.take(0) =~= Seq::<MetaView>::empty());
            }
            while d < nd
                invariant
                    d <= nd,
                    nd == input@.len(),
                    metas == metas_views(input@),
                    map_from_ok(metas),
                    metas[0].maps.dom().contains(key@),
                    cal as int == sum_for_key(metas.take(d as int), key@),
                decreases nd - d,
            {
                proof {
                    assert(metas[d as int] == input@[d as int]@);
                    assert(metas[d as int].maps.dom().contains(key@));
                    assert forall|l: int| 0 <= l < metas.len() implies #[trigger] metas[l]
                        .maps.dom().contains(key@) && metas[l].maps[key@] >= 0 by {
                        assert(metas[l].maps.dom().contains(key@));
                    }
                    lemma_sum_prefix(metas, key@, d as int + 1);
                    assert(metas.take(d as int + 1).drop_last() =~= metas.take(d as int));
                    assert(metas.take(d as int + 1).last() == metas[d as int]);
                }
                match maps_get(&input[d]._maps, key.as_str()) {
                    Some(v) => {
                        cal = cal + (v as u64);
                    },
                    None => {
                        proof {
                            assert(false);
                        }
                    },
                }
                d += 1;
            }
            proof {
                assert(metas.take(nd as int) =~= metas);
            }
            let ghost prevt = total@;
            let ghost calv = cal;
            total.push((key, cal));
            proof {
                assert(total@.drop_last() =~= prevt);
                assert(totals_view(total@) == totals_view(prevt).insert(key@, calv as int));
                assert(total@.last().0@ == input@[0]._maps@[i as int].0@);
                assert forall|k2: Seq<char>| #[trigger]
                    totals_view(total@).dom().contains(k2) implies metas[0].maps.dom().contains(
                    k2,
                ) && totals_view(total@)[k2] == sum_for_key(metas, k2) by {
                    if k2 == key@ {
                        assert(totals_view(total@)[k2] == calv as int);
                    } else {
                        assert(totals_view(prevt).dom().contains(k2));
                    }
                }
            }
            i += 1;
        }
        proof {
            assert forall|k: Seq<char>| metas[0].maps.dom().contains(k) implies totals_view(
                total@,
            ).dom().contains(k) by {
                lemma_maps_view_contains(input@[0]._maps@, k);
                let l = choose|l: int| 0 <= l < input@[0]._maps@.len() && input@[0]._maps@[l].0@
                    == k;
                assert(totals_view(total@).dom().contains(input@[0]._maps@[l].0@));
            }
        }
        ProcessMap { _data: input, _total: total }
    }

    /// The total of one field, rendered with its kB unit.
    pub fn get_total_as_kb(&self, key: &str) -> (r: String)
        requires
            self@.total.dom().contains(key@),
        ensures
            r@ == dec_str(self@.total[key@]) + " KB"@,
    {
        let v = match totals_get(&self._total, key) {
            Some(v) => v,
            None => {
                proof {
                    assert(false);
                }
                0
            },
        };
        let mut out = crate::strutil::u64_to_string(v);
        out.append(" KB");
        out
    }

    /// The total of one field, rendered bare.
    pub fn get_total_as_str(&self, key: &str) -> (r: String)
        requires
            self@.total.dom().contains(key@),
        ensures
            r@ == dec_str(self@.total[key@]),
    {
        let v = match totals_get(&self._total, key) {
            Some(v) => v,
            None => {
                proof {
                    assert(false);
                }
                0
            },
        };
        crate::strutil::u64_to_string(v)
    }
}

} // verus!

verus! {

// ---------------------------------------------------------------------------
// Rendering totals
// ---------------------------------------------------------------------------

pub open spec fn pad3(f: int) -> Seq<char> {
    seq![
        crate::strutil::digit_char(f / 100),
        crate::strutil::digit_char((f / 10) % 10),
        crate::strutil::digit_char(f % 10),
    ]
}

/// A non-negative number of thousandths, rendered with three decimals.
pub open spec fn fixed3(t: int) -> Seq<char> {
    dec_str(t / 1000) + seq!['.'] + pad3(t % 1000)
}

/// The total as the memory x-ray's human-readable mode shows it: three
/// decimals, in KB up to 1024 KB, in MB up to 1024 MB, else in GB, the
/// fraction rounded half up.
pub open spec fn human_readable_spec(v: int) -> Seq<char> {
    if v <= 1024 {
        fixed3(v * 1000) + " KB"@
    } else if v <= 1048576 {
        fixed3((v * 1000 + 512) / 1024) + " MB"@
    } else {
        fixed3((v * 1000 + 524288) / 1048576) + " GB"@
    }
}

impl ProcessMap {
    /// The total of one field, scaled to a readable unit.
    pub fn get_total_as_human_readable(&self, key: &str) -> (r: String)
        requires
            self@.total.dom().contains(key@),
        ensures
            r@ == human_readable_spec(self@.total[key@]),
    {
        let v = match totals_get(&self._total, key) {
            Some(v) => v,
            None => {
                proof {
                    assert(false);
                }
                0
            },
        };
        let t: u128 = if v <= 1024 {
            v as u128 * 1000
        } else if v <= 1048576 {
            (v as u128 * 1000 + 512) / 1024
        } else {
            (v as u128 * 1000 + 524288) / 1048576
        };
        let unit: &str = if v <= 1024 {
            " KB"
        } else if v <= 1048576 {
            " MB"
        } else {
            " GB"
        };
        let mut out = crate::strutil::u128_to_string(t / 1000);
        proof {
            reveal_strlit(".");
            assert("."@ =~= seq!['.']);
        }
        out.append(".");
        let f = (t % 1000) as u32;
        crate::strutil::append_digit(&mut out, (f / 100) as u8);
        crate::strutil::append_digit(&mut out, ((f / 10) % 10) as u8);
        crate::strutil::append_digit(&mut out, (f % 10) as u8);
        out.append(unit);
        proof {
            assert(out@ =~= human_readable_spec(self@.total[key@]));
        }
        out
    }
}

// ---------------------------------------------------------------------------
// Filtering the process list
// ---------------------------------------------------------------------------

impl Process {
    /// The processes owned by the user, by name or by numeric id.
    pub fn filter_user_processes(all: &Vec<ProcessInfo>, user: &String, uid: &String) -> (r: Vec<
        ProcessInfo,
    >)
        ensures
            r@ == all@.filter(
                |p: ProcessInfo| p@.uid == user@ || p@.uid == uid@,
            ),
    {
        let ghost pred = |p: ProcessInfo| p@.uid == user@ || p@.uid == uid@;
        let mut out: Vec<ProcessInfo> = Vec::new();
        let n = all.len();
        let mut i: usize = 0;
        proof {
            reveal(Seq::filter);
            assert(all@.take(0) =~= Seq::<ProcessInfo>::empty());
            assert(out@ =~= all@.take(0).filter(pred));
        }
        while i < n
            invariant
                i <= n,
                n == all@.len(),
                out@ == all@.take(i as int).filter(pred),
                pred == (|p: ProcessInfo| p@.uid == user@ || p@.uid == uid@),
            decreases n - i,
        {
            if crate::strutil::str_eq(all[i]._uid.as_str(), user.as_str()) || crate::strutil::str_eq(
                all[i]._uid.as_str(),
                uid.as_str(),
            ) {
                out.push(all[i].clone());
            }
            proof {
                assert(all@.take(i as int + 1).drop_last() =~= all@.take(i as int));
                assert(all@.take(i as int + 1).last() == all@[i as int]);
                reveal(Seq::filter);
                assert(out@ =~= all@.take(i as int + 1).filter(pred));
            }
            i += 1;
        }
        proof {
            assert(all@.take(n as int) =~= all@);
        }
        out
    }

    /// The user's processes whose command line holds the pattern.
    pub fn filter_user_spec_processes(
        all: &Vec<ProcessInfo>,
        user: &String,
        uid: &String,
        process_name: &String,
    ) -> (r: Vec<ProcessInfo>)
        ensures
            r@ == all@.filter(
                |p: ProcessInfo|
                    (p@.uid == user@ || p@.uid == uid@) && (exists|k: int|
                        match_at(p@.cmd, process_name@, k)),
            ),
    {
        let ghost pred = |p: ProcessInfo|
            (p@.uid == user@ || p@.uid == uid@) && (exists|k: int|
                match_at(p@.cmd, process_name@, k));
        let mut out: Vec<ProcessInfo> = Vec::new();
        let n = all.len();
        let mut i: usize = 0;
        proof {
            reveal(Seq::filter);
            assert(all@.take(0) =~= Seq::<ProcessInfo>::empty());
            assert(out@ =~= all@.take(0).filter(pred));
        }
        while i < n
            invariant
                i <= n,
                n == all@.len(),
                out@ == all@.take(i as int).filter(pred),
                pred == (|p: ProcessInfo|
                    (p@.uid == user@ || p@.uid == uid@) && (exists|k: int|
                        match_at(p@.cmd, process_name@, k))),
            decreases n - i,
        {
            let owned = crate::strutil::str_eq(all[i]._uid.as_str(), user.as_str())
                || crate::strutil::str_eq(all[i]._uid.as_str(), uid.as_str());
            let matches_cmd = crate::strutil::str_contains(
                all[i]._cmd.as_str(),
                process_name.as_str(),
            );
            proof {
                assert(all@[i as int]@.cmd == all[i as int]._cmd@);
                assert(owned == (all@[i as int]@.uid == user@ || all@[i as int]@.uid == uid@));
                assert(matches_cmd == (exists|k: int|
                    match_at(all@[i as int]@.cmd, process_name@, k)));
                assert((owned && matches_cmd) == pred(all@[i as int]));
            }
            if owned && matches_cmd {
                out.push(all[i].clone());
            }
            proof {
                assert(all@.take(i as int + 1).drop_last() =~= all@.take(i as int));
                assert(all@.take(i as int + 1).last() == all@[i as int]);
                reveal(Seq::filter);
                assert(out@ =~= all@.take(i as int + 1).filter(pred));
            }
            i += 1;
        }
        proof {
            assert(all@.take(n as int) =~= all@);
        }
        out
    }
}

} // verus!

verus! {

// ---------------------------------------------------------------------------
// A whole smaps dump
// ---------------------------------------------------------------------------

/// The blocks of an smaps dump, starting after the opening region line:
/// each line holding a `-` closes the block before it and opens the next.
/// Only such a line closes a block, so the trailing block is dropped.
pub open spec fn blocks_rec(lines: Seq<Seq<char>>, cur: Seq<Seq<char>>) -> Seq<Seq<Seq<char>>>
    decreases lines.len(),
{
    if lines.len() == 0 {
        Seq::empty()
    } else if lines[0].contains('-') {
        seq![cur] + blocks_rec(lines.drop_first(), seq![lines[0]])
    } else {
        blocks_rec(lines.drop_first(), cur.push(lines[0]))
    }
}

pub open spec fn smap_lines(input: Seq<char>) -> Seq<Seq<char>> {
    split_pat(input, seq!['\n'])
}

pub open spec fn smap_blocks(input: Seq<char>) -> Seq<Seq<Seq<char>>> {
    let lines = smap_lines(input);
    blocks_rec(lines.drop_first(), seq![lines[0]])
}

/// The parsed regions of the dump's blocks.
pub open spec fn block_metas(blocks: Seq<Seq<Seq<char>>>, cmd: Seq<char>) -> Seq<MetaView> {
    blocks.map_values(|b: Seq<Seq<char>>| meta_spec(b, cmd))
}

/// What the dump reader needs: at least one closed block, each block well
/// formed, and the totals' own conditions over the parsed regions.
pub open spec fn smap_input_ok(input: Seq<char>, cmd: Seq<char>) -> bool {
    let bs = smap_blocks(input);
    &&& bs.len() >= 1
    &&& forall|i: int| 0 <= i < bs.len() ==> meta_block_ok(#[trigger] bs[i])
    &&& map_from_ok(block_metas(bs, cmd))
}

impl Process {
    /// Parse a whole smaps dump into the process's memory map.
    pub fn build_proc_map_list(smap_input: &String, cmd_input: Option<&String>) -> (r: Result<
        ProcessMap,
        HinaError,
    >)
        requires
            smap_input_ok(
                smap_input@,
                match cmd_input {
                    Some(c) => c@,
                    None => Seq::empty(),
                },
            ),
        ensures
            ({
                let cmd = match cmd_input {
                    Some(c) => c@,
                    None => Seq::empty(),
                };
                let metas = block_metas(smap_blocks(smap_input@), cmd);
                match r {
                    Ok(pm) => {
                        &&& pm@.data == metas
                        &&& forall|k: Seq<char>| #[trigger]
                            pm@.total.dom().contains(k) <==> metas[0].maps.dom().contains(k)
                        &&& forall|k: Seq<char>|
                            #[trigger] pm@.total.dom().contains(k) ==> pm@.total[k] == sum_for_key(
                                metas,
                                k,
                            )
                    },
                    Err(_) => false,
                }
            }),
    {
        proof {
            reveal_strlit("\n");
            assert("\n"@ =~= seq!['\n']);
        }
        let empty_cmd = String::new();
        let cmd: &String = match cmd_input {
            Some(c) => c,
            None => &empty_cmd,
        };
        let ghost cmdv = cmd@;
        let lines = split_str(smap_input.as_str(), "\n");
        proof {
            crate::strutil::lemma_split_pat_nonempty(smap_input@, seq!['\n']);
        }
        let ghost lvs = views_of(lines@);
        let ghost bs = smap_blocks(smap_input@);
        let n = lines.len();
        let mut map_list: Vec<ProcessMapMeta> = Vec::new();
        let mut block: Vec<&str> = Vec::new();
        block.push(lines[0].as_str());
        let mut i: usize = 1;
        let ghost mut emitted: Seq<Seq<Seq<char>>> = Seq::empty();
        proof {
            assert(str_views(block@) =~= seq![lvs[0]]);
            assert(lvs.skip(1) =~= lvs.drop_first());
            assert(bs =~= emitted + blocks_rec(lvs.skip(1), str_views(block@)));
            assert(metas_views(map_list@) =~= block_metas(emitted, cmdv));
        }
        while i < n
            invariant
                1 <= i <= n,
                n == lines@.len(),
                lvs == views_of(lines@),
                bs == smap_blocks(smap_input@),
                cmdv == (match cmd_input {
                    Some(c) => c@,
                    None => Seq::<char>::empty(),
                }),
                cmdv == cmd@,
                smap_input_ok(smap_input@, cmdv),
                bs == emitted + blocks_rec(lvs.skip(i as int), str_views(block@)),
                metas_views(map_list@) == block_metas(emitted, cmdv),
            decreases n - i,
        {
            proof {
                assert(lvs.skip(i as int)[0] == lvs[i as int]);
                assert(lvs.skip(i as int).drop_first() =~= lvs.skip(i as int + 1));
            }
            if crate::strutil::str_contains_char(lines[i].as_str(), '-') {
                let ghost cur = str_views(block@);
                proof {
                    assert(blocks_rec(lvs.skip(i as int), cur) == seq![cur] + blocks_rec(
                        lvs.skip(i as int + 1),
                        seq![lvs[i as int]],
                    ));
                    assert(bs == (emitted.push(cur)) + blocks_rec(
                        lvs.skip(i as int + 1),
                        seq![lvs[i as int]],
                    )) by {
                        assert(emitted + (seq![cur] + blocks_rec(
                            lvs.skip(i as int + 1),
                            seq![lvs[i as int]],
                        )) =~= (emitted.push(cur)) + blocks_rec(
                            lvs.skip(i as int + 1),
                            seq![lvs[i as int]],
                        ));
                    }
                    assert(0 <= emitted.len() < bs.len()) by {
                        assert(blocks_rec(lvs.skip(i as int), cur).len() >= 1);
                    }
                    assert(bs[emitted.len() as int] == cur);
                    assert(meta_block_ok(cur));
                }
                let meta = match ProcessMapMeta::from(&block, cmd) {
                    Ok(m) => m,
                    Err(_) => {
                        proof {
                            assert(false);
                        }
                        return Err(HinaError::BadFileError(String::new()));
                    },
                };
                let ghost prev_list = map_list@;
                let ghost preve = emitted;
                map_list.push(meta);
                proof {
                    emitted = emitted.push(cur);
                    assert(meta@ == meta_spec(cur, cmdv));
                    assert(metas_views(map_list@) =~= metas_views(prev_list).push(meta@));
                    assert(block_metas(emitted, cmdv) =~= block_metas(preve, cmdv).push(
                        meta_spec(cur, cmdv),
                    ));
                    assert(metas_views(map_list@) == block_metas(emitted, cmdv));
                }
                let mut nblock: Vec<&str> = Vec::new();
                nblock.push(lines[i].as_str());
                block = nblock;
                proof {
                    assert(str_views(block@) =~= seq![lvs[i as int]]);
                }
            } else {
                let ghost prevb = block@;
                block.push(lines[i].as_str());
                proof {
                    assert(str_views(block@) =~= str_views(prevb).push(lvs[i as int]));
                }
            }
            i += 1;
        }
        proof {
            assert(lvs.skip(n as int) =~= Seq::<Seq<char>>::empty());
            assert(emitted + Seq::<Seq<Seq<char>>>::empty() =~= emitted);
            assert(emitted == bs);
            assert(metas_views(map_list@) == block_metas(bs, cmdv));
        }
        Ok(ProcessMap::from(map_list))
    }
}

} // verus!

verus! {

// ---------------------------------------------------------------------------
// The memory x-ray table
// ---------------------------------------------------------------------------

/// The views of a table's rows.
pub open spec fn row_views(v: Seq<Vec<String>>) -> Seq<Seq<Seq<char>>> {
    v.map_values(|x: Vec<String>| views_of(x@))
}

/// The views of keyed rows.
pub open spec fn pair_views(v: Seq<(u64, Vec<String>)>) -> Seq<(int, Seq<Seq<char>>)> {
    v.map_values(|p: (u64, Vec<String>)| (p.0 as int, views_of(p.1@)))
}

/// A keyed row placed into an ascending sequence, after the entries its key
/// does not go below.
pub open spec fn insert_asc_spec(
    s: Seq<(int, Seq<Seq<char>>)>,
    x: (int, Seq<Seq<char>>),
) -> Seq<(int, Seq<Seq<char>>)>
    decreases s.len(),
{
    if s.len() == 0 {
        seq![x]
    } else if x.0 < s[0].0 {
        seq![x] + s
    } else {
        seq![s[0]] + insert_asc_spec(s.drop_first(), x)
    }
}

/// The keyed rows sorted into ascending key order by insertion.
pub open spec fn sort_asc_spec(s: Seq<(int, Seq<Seq<char>>)>) -> Seq<(int, Seq<Seq<char>>)>
    decreases s.len(),
{
    if s.len() == 0 {
        s
    } else {
        insert_asc_spec(sort_asc_spec(s.drop_first()), s[0])
    }
}

proof fn lemma_insert_asc_at(s: Seq<(int, Seq<Seq<char>>)>, x: (int, Seq<Seq<char>>), p: int)
    requires
        0 <= p <= s.len(),
        forall|j: int| 0 <= j < p ==> s[j].0 <= x.0,
        p < s.len() ==> x.0 < s[p].0,
    ensures
        insert_asc_spec(s, x) == s.take(p) + seq![x] + s.skip(p),
    decreases p,
{
    if p == 0 {
        assert(insert_asc_spec(s, x) =~= s.take(0) + seq![x] + s.skip(0));
    } else {
        lemma_insert_asc_at(s.drop_first(), x, p - 1);
        assert(s.drop_first().take(p - 1) =~= s.take(p).drop_first());
        assert(s.drop_first().skip(p - 1) =~= s.skip(p));
        assert(seq![s[0]] + (s.drop_first().take(p - 1) + seq![x] + s.drop_first().skip(p - 1))
            =~= s.take(p) + seq![x] + s.skip(p));
    }
}

fn insert_asc(v: &mut Vec<(u64, Vec<String>)>, x: (u64, Vec<String>))
    ensures
        pair_views(final(v)@) == insert_asc_spec(
            pair_views(old(v)@),
            (x.0 as int, views_of(x.1@)),
        ),
{
    let n = v.len();
    let mut p: usize = 0;
    while p < n && v[p].0 <= x.0
        invariant
            p <= n,
            n == v@.len(),
            v@ == old(v)@,
            forall|j: int| 0 <= j < p ==> pair_views(v@)[j].0 <= x.0 as int,
        decreases n - p,
    {
        p += 1;
    }
    proof {
        lemma_insert_asc_at(pair_views(v@), (x.0 as int, views_of(x.1@)), p as int);
    }
    let ghost prev = v@;
    v.insert(p, x);
    proof {
        assert(pair_views(v@) =~= pair_views(prev).take(p as int) + seq![
            (x.0 as int, views_of(x.1@)),
        ] + pair_views(prev).skip(p as int));
    }
}

/// The keyed rows in ascending key order.
fn sort_rows(v: Vec<(u64, Vec<String>)>) -> (r: Vec<(u64, Vec<String>)>)
    ensures
        pair_views(r@) == sort_asc_spec(pair_views(v@)),
{
    let ghost orig = v@;
    let mut v = v;
    let mut r: Vec<(u64, Vec<String>)> = Vec::new();
    proof {
        assert(v@ =~= orig.take(orig.len() as int));
        assert(pair_views(orig).skip(orig.len() as int) =~= Seq::<(int, Seq<Seq<char>>)>::empty());
        assert(pair_views(r@) =~= sort_asc_spec(pair_views(orig).skip(orig.len() as int)));
        assert(pair_views(orig.take(orig.len() as int)) =~= pair_views(orig));
    }
    while v.len() > 0
        invariant
            v@.len() <= orig.len(),
            v@ == orig.take(v@.len() as int),
            pair_views(r@) == sort_asc_spec(pair_views(orig).skip(v@.len() as int)),
        decreases v@.len(),
    {
        let ghost k = v@.len() - 1;
        let x = match v.pop() {
            Some(x) => x,
            None => {
                proof {
                    assert(false);
                }
                return r;
            },
        };
        proof {
            assert(x == orig[k]);
            assert(v@ =~= orig.take(k));
            assert(pair_views(orig).skip(k).drop_first() =~= pair_views(orig).skip(k + 1));
            assert(pair_views(orig).skip(k)[0] == (orig[k].0 as int, views_of(orig[k].1@)));
        }
        insert_asc(&mut r, x);
    }
    proof {
        assert(pair_views(orig).skip(0) =~= pair_views(orig));
    }
    r
}

/// The four memory fields the table shows.
pub open spec fn mem_keys_ok(total: Map<Seq<char>, int>) -> bool {
    &&& total.dom().contains("size"@)
    &&& total.dom().contains("swap"@)
    &&& total.dom().contains("pss"@)
    &&& total.dom().contains("rss"@)
}

/// The sort key of one process row: the chosen memory total, or its pid.
pub open spec fn row_key_spec(info: InfoView, total: Map<Seq<char>, int>, sort_by: Seq<char>) -> int {
    if sort_by == "size"@ {
        total["size"@]
    } else if sort_by == "swap"@ {
        total["swap"@]
    } else if sort_by == "pss"@ {
        total["pss"@]
    } else if sort_by == "rss"@ {
        total["rss"@]
    } else {
        info.pid
    }
}

/// One row of the table: the process identity, the four totals in the
/// chosen rendering, the command, and the four bare totals used as sort
/// columns.
pub open spec fn row_spec(info: InfoView, total: Map<Seq<char>, int>, human: bool) -> Seq<
    Seq<char>,
> {
    let size_f = if human {
        human_readable_spec(total["size"@])
    } else {
        dec_str(total["size"@]) + " KB"@
    };
    let swap_f = if human {
        human_readable_spec(total["swap"@])
    } else {
        dec_str(total["swap"@]) + " KB"@
    };
    let pss_f = if human {
        human_readable_spec(total["pss"@])
    } else {
        dec_str(total["pss"@]) + " KB"@
    };
    let rss_f = if human {
        human_readable_spec(total["rss"@])
    } else {
        dec_str(total["rss"@]) + " KB"@
    };
    seq![
        info.uid,
        dec_str(info.pid),
        size_f,
        swap_f,
        pss_f,
        rss_f,
        info.cmd,
        dec_str(total["size"@]),
        dec_str(total["swap"@]),
        dec_str(total["pss"@]),
        dec_str(total["rss"@]),
    ]
}

/// The keyed rows of the given processes.
pub open spec fn keyed_rows_spec(
    pairs: Seq<(ProcessInfo, ProcessMap)>,
    sort_by: Seq<char>,
    human: bool,
) -> Seq<(int, Seq<Seq<char>>)> {
    Seq::new(
        pairs.len(),
        |i: int|
            (
                row_key_spec(pairs[i].0@, pairs[i].1@.total, sort_by),
                row_spec(pairs[i].0@, pairs[i].1@.total, human),
            ),
    )
}

impl Process {
    /// The memory table of the given processes, sorted ascending by the
    /// chosen column: one of the four totals, or the pid for any other
    /// name.
    pub fn get_proc_mem_detail(
        pairs: &Vec<(ProcessInfo, ProcessMap)>,
        sort_by: &String,
        human_readable: bool,
    ) -> (r: Vec<Vec<String>>)
        requires
            forall|i: int|
                0 <= i < pairs@.len() ==> mem_keys_ok(#[trigger] pairs@[i].1@.total),
        ensures
            row_views(r@) == sort_asc_spec(
                keyed_rows_spec(pairs@, sort_by@, human_readable),
            ).map_values(|p: (int, Seq<Seq<char>>)| p.1),
    {
        let ghost target = keyed_rows_spec(pairs@, sort_by@, human_readable);
        let mut keyed: Vec<(u64, Vec<String>)> = Vec::new();
        let n = pairs.len();
        let mut i: usize = 0;
        proof {
            assert(pair_views(keyed@) =~= target.take(0));
        }
        while i < n
            invariant
                i <= n,
                n == pairs@.len(),
                target == keyed_rows_spec(pairs@, sort_by@, human_readable),
                forall|l: int|
                    0 <= l < pairs@.len() ==> mem_keys_ok(#[trigger] pairs@[l].1@.total),
                pair_views(keyed@) == target.take(i as int),
            decreases n - i,
        {
            let info = &pairs[i].0;
            let pm = &pairs[i].1;
            let mut row: Vec<String> = Vec::new();
            row.push(info._uid.clone());
            row.push(crate::strutil::usize_to_string(info._pid));
            if human_readable {
                row.push(pm.get_total_as_human_readable("size"));
                row.push(pm.get_total_as_human_readable("swap"));
                row.push(pm.get_total_as_human_readable("pss"));
                row.push(pm.get_total_as_human_readable("rss"));
            } else {
                row.push(pm.get_total_as_kb("size"));
                row.push(pm.get_total_as_kb("swap"));
                row.push(pm.get_total_as_kb("pss"));
                row.push(pm.get_total_as_kb("rss"));
            }
            row.push(info._cmd.clone());
            row.push(pm.get_total_as_str("size"));
            row.push(pm.get_total_as_str("swap"));
            row.push(pm.get_total_as_str("pss"));
            row.push(pm.get_total_as_str("rss"));
            proof {
                assert(views_of(row@) =~= row_spec(
                    pairs@[i as int].0@,
                    pairs@[i as int].1@.total,
                    human_readable,
                ));
            }
            let key: u64 = if crate::strutil::str_eq(sort_by.as_str(), "size") {
                match totals_get(&pm._total, "size") {
                    Some(v) => v,
                    None => {
                        proof {
                            assert(false);
                        }
                        0
                    },
                }
            } else if crate::strutil::str_eq(sort_by.as_str(), "swap") {
                match totals_get(&pm._total, "swap") {
                    Some(v) => v,
                    None => {
                        proof {
                            assert(false);
                        }
                        0
                    },
                }
            } else if crate::strutil::str_eq(sort_by.as_str(), "pss") {
                match totals_get(&pm._total, "pss") {
                    Some(v) => v,
                    None => {
                        proof {
                            assert(false);
                        }
                        0
                    },
                }
            } else if crate::strutil::str_eq(sort_by.as_str(), "rss") {
                match totals_get(&pm._total, "rss") {
                    Some(v) => v,
                    None => {
                        proof {
                            assert(false);
                        }
                        0
                    },
                }
            } else {
                info._pid as u64
            };
            proof {
                assert(key as int == row_key_spec(
                    pairs@[i as int].0@,
                    pairs@[i as int].1@.total,
                    sort_by@,
                ));
            }
            let ghost prevk = keyed@;
            let ghost rowv = views_of(row@);
            keyed.push((key, row));
            proof {
                assert(target.len() == n);
                assert(pair_views(prevk).len() == i);
                assert(pair_views(keyed@).len() == i + 1);
                assert(pair_views(keyed@)[i as int] == (key as int, rowv));
                assert(target[i as int] == (key as int, rowv));
                assert forall|l: int| 0 <= l < i implies pair_views(keyed@)[l] == target[l] by {
                    assert(pair_views(keyed@)[l] == pair_views(prevk)[l]);
                    assert(pair_views(prevk)[l] == target.take(i as int)[l]);
                }
                assert(pair_views(keyed@) =~= target.take(i as int + 1));
            }
            i += 1;
        }
        proof {
            assert(target.take(n as int) =~= target);
        }
        let sorted = sort_rows(keyed);
        let mut out: Vec<Vec<String>> = Vec::new();
        let ghost sv = sort_asc_spec(target);
        let mut rest = sorted;
        proof {
            assert(row_views(out@) =~= sv.map_values(|p: (int, Seq<Seq<char>>)| p.1).take(0));
        }
        while rest.len() > 0
            invariant
                sv == sort_asc_spec(target),
                sv.len() == row_views(out@).len() + pair_views(rest@).len(),
                pair_views(rest@) == sv.skip(row_views(out@).len() as int),
                row_views(out@) == sv.map_values(|p: (int, Seq<Seq<char>>)| p.1).take(
                    row_views(out@).len() as int,
                ),
            decreases rest@.len(),
        {
            let ghost done = out@.len() as int;
            let p = rest.remove(0);
            proof {
                assert(rest@ =~= rest@);
                assert(pair_views(rest@) =~= sv.skip(done).drop_first());
                assert(sv.skip(done).drop_first() =~= sv.skip(done + 1));
                assert((p.0 as int, views_of(p.1@)) == sv.skip(done)[0]);
                assert(sv.skip(done)[0] == sv[done]);
            }
            let ghost prevo = out@;
            out.push(p.1);
            proof {
                assert(row_views(out@) =~= row_views(prevo).push(views_of(p.1@)));
                assert(row_views(out@) =~= sv.map_values(|q: (int, Seq<Seq<char>>)| q.1).take(
                    done + 1,
                ));
            }
        }
        proof {
            assert(sv.map_values(|p: (int, Seq<Seq<char>>)| p.1).take(sv.len() as int) =~= sv
                .map_values(|p: (int, Seq<Seq<char>>)| p.1));
            assert(row_views(out@) =~= sv.map_values(|p: (int, Seq<Seq<char>>)| p.1));
        }
        out
    }
}

} // verus!

verus! {

// ---------------------------------------------------------------------------
// The ancestor chain of a process
// ---------------------------------------------------------------------------

/// The views of the parsed process lines.
pub open spec fn infos_views(v: Seq<ProcessInfo>) -> Seq<InfoView> {
    v.map_values(|p: ProcessInfo| p@)
}

/// What the process table says of `pid`: the parent id and the `ps` line of
/// its last entry, the way repeated map inserts would keep it.
pub open spec fn route_of(infos: Seq<InfoView>, pid: int) -> Option<(int, Seq<char>)>
    decreases infos.len(),
{
    if infos.len() == 0 {
        None
    } else if infos.last().pid == pid {
        Some((infos.last().ppid, infos.last().origin))
    } else {
        route_of(infos.drop_last(), pid)
    }
}

proof fn lemma_route_at(infos: Seq<InfoView>, pid: int, i: int)
    requires
        0 <= i < infos.len(),
        infos[i].pid == pid,
        forall|j: int| i < j < infos.len() ==> infos[j].pid != pid,
    ensures
        route_of(infos, pid) == Some((infos[i].ppid, infos[i].origin)),
    decreases infos.len(),
{
    if i < infos.len() - 1 {
        lemma_route_at(infos.drop_last(), pid, i);
    }
}

proof fn lemma_route_none(infos: Seq<InfoView>, pid: int)
    requires
        forall|j: int| 0 <= j < infos.len() ==> infos[j].pid != pid,
    ensures
        route_of(infos, pid) is None,
    decreases infos.len(),
{
    if infos.len() > 0 {
        lemma_route_none(infos.drop_last(), pid);
    }
}

fn route_get(all: &Vec<ProcessInfo>, pid: usize) -> (r: Option<(usize, String)>)
    ensures
        match r {
            Some(p) => route_of(infos_views(all@), pid as int) == Some((p.0 as int, p.1@)),
            None => route_of(infos_views(all@), pid as int) is None,
        },
{
    let mut i = all.len();
    while i > 0
        invariant
            i <= all@.len(),
            forall|j: int| i <= j < all@.len() ==> infos_views(all@)[j].pid != pid as int,
        decreases i,
    {
        i -= 1;
        if all[i]._pid == pid {
            proof {
                lemma_route_at(infos_views(all@), pid as int, i as int);
            }
            return Some((all[i]._ppid, all[i]._origin.clone()));
        }
    }
    proof {
        lemma_route_none(infos_views(all@), pid as int);
    }
    None
}

/// The ancestor lines from `pid`: its own line, then its parent's, and so
/// on.  The chain ends at a parent id of zero, at a parent the table does
/// not know, or after `fuel` links.
pub open spec fn chain_spec(infos: Seq<InfoView>, pid: int, fuel: nat) -> Seq<Seq<char>>
    decreases fuel,
{
    match route_of(infos, pid) {
        None => Seq::empty(),
        Some(p) => {
            if p.0 == 0 || fuel == 0 {
                seq![p.1]
            } else {
                seq![p.1] + chain_spec(infos, p.0, (fuel - 1) as nat)
            }
        },
    }
}

impl Process {
    /// The `ps` lines of the process and its ancestors, the process first.
    /// The walk follows at most one parent link per table entry, so a table
    /// whose parent chain loops ends the listing instead of running on;
    /// an unknown process yields no lines.
    pub fn ancestor_chain(all: &Vec<ProcessInfo>, process_id: usize) -> (r: Vec<String>)
        ensures
            views_of(r@) == chain_spec(
                infos_views(all@),
                process_id as int,
                all@.len() as nat,
            ),
    {
        let ghost infos = infos_views(all@);
        let mut out: Vec<String> = Vec::new();
        let mut pid = process_id;
        let mut fuel = all.len();
        proof {
            assert(views_of(out@) + chain_spec(infos, pid as int, fuel as nat) =~= chain_spec(
                infos,
                process_id as int,
                all@.len() as nat,
            ));
        }
        loop
            invariant
                infos == infos_views(all@),
                chain_spec(infos, process_id as int, all@.len() as nat) == views_of(out@)
                    + chain_spec(infos, pid as int, fuel as nat),
            decreases fuel,
        {
            match route_get(all, pid) {
                None => {
                    proof {
                        assert(views_of(out@) + chain_spec(infos, pid as int, fuel as nat)
                            =~= views_of(out@));
                    }
                    return out;
                },
                Some(p) => {
                    let ghost prev = out@;
                    let next_pid = p.0;
                    out.push(p.1);
                    proof {
                        crate::strutil::lemma_views_push(prev, out@[out@.len() - 1]);
                        assert(views_of(out@) =~= views_of(prev).push(
                            chain_spec(infos, pid as int, fuel as nat)[0],
                        ));
                    }
                    if next_pid == 0 || fuel == 0 {
                        proof {
                            assert(views_of(prev) + chain_spec(infos, pid as int, fuel as nat)
                                =~= views_of(out@));
                        }
                        return out;
                    }
                    proof {
                        assert(views_of(prev) + chain_spec(infos, pid as int, fuel as nat)
                            =~= views_of(out@) + chain_spec(
                            infos,
                            next_pid as int,
                            (fuel - 1) as nat,
                        ));
                    }
                    pid = next_pid;
                    fuel -= 1;
                },
            }
        }
    }
}

} // verus!
