use vstd::prelude::*;
use rand::{thread_rng, Rng};
use rand::distributions::Alphanumeric;
use crate::error::HinaError;
use crate::strutil::{
    is_absolute, is_absolute_spec, pad_spec, path_join, path_join_spec, split_nonblank, split_pat,
    split_str, str_pad, str_trim, trim_spec, views_of,
};

verus! {

pub open spec fn is_alnum_char(c: char) -> bool {
    let u = c as u32;
    (48 <= u && u <= 57) || (65 <= u && u <= 90) || (97 <= u && u <= 122)
}

pub open spec fn is_alnum_seq(s: Seq<char>) -> bool {
    forall|i: int| 0 <= i < s.len() ==> is_alnum_char(s[i])
}

/// Relies on rand's `thread_rng` with the `Alphanumeric` distribution: every
/// sampled character is an ASCII letter or digit, and `take(len)` yields
/// exactly `len` of them.
#[verifier::external_body]
pub fn gen_rand_str(len: usize) -> (r: String)
    ensures
        r@.len() == len,
        is_alnum_seq(r@),
{
    thread_rng().sample_iter(&Alphanumeric).take(len).map(char::from).collect()
}

/// Relies on chrono's `Local::now` and `format`: the present local time,
/// rendered to millisecond precision.  Nothing is promised of the text, since
/// it depends on the clock.
#[verifier::external_body]
pub fn local_time_string() -> (r: String) {
    let now: chrono::DateTime<chrono::Local> = chrono::Local::now();
    now.format("%Y-%m-%d %H:%M:%S%.3f").to_string()
}

/// The chosen path: the given one, or the default where none was given.
pub fn parse_path_or(input_path: Option<&String>, default: &str) -> (r: Result<String, HinaError>)
    ensures
        match r {
            Ok(p) => p@ == (match input_path {
                Some(s) => s@,
                None => default@,
            }),
            Err(_) => false,
        },
{
    match input_path {
        None => Ok(default.to_owned()),
        Some(path) => Ok(path.clone()),
    }
}

/// The path a target argument names before the filesystem is consulted:
/// absolute as given, or joined onto the working directory.
pub open spec fn candidate_spec(work: Seq<char>, input: Seq<char>) -> Seq<char> {
    if is_absolute_spec(input) {
        input
    } else {
        path_join_spec(work, input)
    }
}

pub fn resolve_candidate(work_path: &String, input_path: &String) -> (r: String)
    ensures
        r@ == candidate_spec(work_path@, input_path@),
{
    if is_absolute(input_path.as_str()) {
        input_path.clone()
    } else {
        path_join(work_path.as_str(), input_path.as_str())
    }
}

/// Decide what a target argument resolves to.  The filesystem probes are
/// given as arguments: whether the candidate path exists, whether it is a
/// symbolic link (which resolves to itself, so that removing a link touches
/// the link and not its target), and what the filesystem canonicalized the
/// path to, where that was possible.
pub fn get_execute_target(
    work_path: &String,
    input_path: &String,
    exists: bool,
    is_symlink: bool,
    canonical: Option<String>,
) -> (r: Result<String, HinaError>)
    ensures
        ({
            let cand = candidate_spec(work_path@, input_path@);
            match r {
                Ok(p) => exists && (if is_symlink {
                    p@ == cand
                } else {
                    canonical matches Some(c) && p@ == c@
                }),
                Err(e) => match e {
                    HinaError::FileNotExistError(msg) => !exists && msg@ == "Unable to locate "@
                        + cand,
                    HinaError::BadFileError(msg) => exists && !is_symlink && canonical is None
                        && msg@ == "Unable to open "@ + cand,
                    _ => false,
                },
            }
        }),
{
    let target = resolve_candidate(work_path, input_path);
    if exists {
        if !is_symlink {
            match canonical {
                Some(path) => Ok(path),
                None => {
                    let mut err = "Unable to open ".to_owned();
                    err.append(target.as_str());
                    Err(HinaError::BadFileError(err))
                },
            }
        } else {
            Ok(target)
        }
    } else {
        let mut err = "Unable to locate ".to_owned();
        err.append(target.as_str());
        Err(HinaError::FileNotExistError(err))
    }
}

/// The user id as the `id` utility prints it: the text between the first
/// `=` and the first `(` of the first whitespace-delimited field.
pub open spec fn uid_spec(output: Seq<char>) -> Seq<char> {
    let first = split_pat(output, seq![' '])[0];
    let after_eq = split_pat(first, seq!['='])[1];
    split_pat(after_eq, seq!['('])[0]
}

/// Extract the numeric user id from the output of the `id` utility.
pub fn get_uid(output: &String) -> (r: Result<String, HinaError>)
    requires
        split_pat(split_pat(output@, seq![' '])[0], seq!['=']).len() >= 2,
    ensures
        match r {
            Ok(uid) => uid@ == uid_spec(output@),
            Err(_) => false,
        },
{
    proof {
        reveal_strlit(" ");
        reveal_strlit("=");
        reveal_strlit("(");
        assert(" "@ =~= seq![' ']);
        assert("="@ =~= seq!['=']);
        assert("("@ =~= seq!['(']);
    }
    let fields = split_str(output.as_str(), " ");
    proof {
        crate::strutil::lemma_split_pat_nonempty(output@, seq![' ']);
    }
    let first = &fields[0];
    let eq_parts = split_str(first.as_str(), "=");
    let after_eq = &eq_parts[1];
    proof {
        crate::strutil::lemma_split_pat_nonempty(after_eq@, seq!['(']);
    }
    let paren_parts = split_str(after_eq.as_str(), "(");
    Ok(paren_parts[0].clone())
}

/// `content` trimmed, split on `pattern`, with the blank pieces dropped.
pub open spec fn split_clean_spec(content: Seq<char>, pat: Seq<char>) -> Seq<Seq<char>> {
    split_pat(trim_spec(content), pat).filter(|t: Seq<char>| t.len() > 0)
}

pub fn split_and_remove_blank(content: &String, pattern: &str) -> (r: Result<
    Vec<String>,
    HinaError,
>)
    requires
        pattern@.len() > 0,
    ensures
        match r {
            Ok(v) => views_of(v@) == split_clean_spec(content@, pattern@),
            Err(_) => false,
        },
{
    let trimmed = str_trim(content.as_str());
    Ok(split_nonblank(trimmed.as_str(), pattern))
}

/// `s` padded with spaces to at least `width` characters.
pub fn gen_str_width_ctrl(s: &String, width: usize) -> (r: String)
    ensures
        r@ == pad_spec(s@, width as int),
{
    str_pad(s.as_str(), width)
}

} // verus!

verus! {

/// Width of column `i`: the longest cell in it over the data rows.
pub open spec fn col_width(rows: Seq<Seq<Seq<char>>>, i: int) -> int
    decreases rows.len(),
{
    if rows.len() == 0 {
        0
    } else {
        let w = col_width(rows.drop_last(), i);
        if rows.last()[i].len() > w {
            rows.last()[i].len() as int
        } else {
            w
        }
    }
}

/// One table line: the row's first `n_len` cells, each padded to its
/// column's width and followed by two spaces.
pub open spec fn render_row_spec(
    row: Seq<Seq<char>>,
    rows: Seq<Seq<Seq<char>>>,
    n_len: int,
) -> Seq<char>
    decreases n_len,
{
    if n_len <= 0 {
        Seq::empty()
    } else {
        render_row_spec(row, rows, n_len - 1) + pad_spec(row[n_len - 1], col_width(rows, n_len - 1))
            + "  "@
    }
}

/// The table the process listing prints: the head line first, then one
/// line per data row, the columns aligned to the widest data cell.
pub fn render_info(head: &Vec<String>, data: &Vec<Vec<String>>, n_len: usize) -> (r: Vec<String>)
    requires
        head@.len() >= n_len,
        forall|j: int| 0 <= j < data@.len() ==> #[trigger] data@[j]@.len() >= n_len,
    ensures
        r@.len() == 1 + data@.len(),
        r@[0]@ == render_row_spec(
            views_of(head@),
            crate::process::row_views(data@),
            n_len as int,
        ),
        forall|j: int|
            0 <= j < data@.len() ==> #[trigger] r@[j + 1]@ == render_row_spec(
                views_of(data@[j]@),
                crate::process::row_views(data@),
                n_len as int,
            ),
{
    let ghost rows = crate::process::row_views(data@);
    let nrows = data.len();
    let mut widths: Vec<usize> = Vec::new();
    let mut i: usize = 0;
    while i < n_len
        invariant
            i <= n_len,
            rows == crate::process::row_views(data@),
            nrows == data@.len(),
            head@.len() >= n_len,
            forall|j: int| 0 <= j < data@.len() ==> #[trigger] data@[j]@.len() >= n_len,
            widths@.len() == i,
            forall|l: int| 0 <= l < i ==> #[trigger] widths@[l] as int == col_width(rows, l),
        decreases n_len - i,
    {
        let mut w: usize = 0;
        let mut j: usize = 0;
        proof {
            assert(rows.take(0) =~= Seq::<Seq<Seq<char>>>::empty());
        }
        while j < nrows
            invariant
                j <= nrows,
                i < n_len,
                rows == crate::process::row_views(data@),
                nrows == data@.len(),
                forall|l: int| 0 <= l < data@.len() ==> #[trigger] data@[l]@.len() >= n_len,
                w as int == col_width(rows.take(j as int), i as int),
            decreases nrows - j,
        {
            let m = data[j][i].as_str().unicode_len();
            proof {
                assert(rows.take(j as int + 1).drop_last() =~= rows.take(j as int));
                assert(rows.take(j as int + 1).last() == rows[j as int]);
                assert(rows[j as int][i as int] == data@[j as int]@[i as int]@);
            }
            if m > w {
                w = m;
            }
            j += 1;
        }
        proof {
            assert(rows.take(nrows as int) =~= rows);
        }
        widths.push(w);
        i += 1;
    }
    let mut out: Vec<String> = Vec::new();
    let head_line = render_one_row(head, &widths, n_len, Ghost(rows));
    out.push(head_line);
    let mut j: usize = 0;
    while j < nrows
        invariant
            j <= nrows,
            rows == crate::process::row_views(data@),
            nrows == data@.len(),
            head@.len() >= n_len,
            forall|l: int| 0 <= l < data@.len() ==> #[trigger] data@[l]@.len() >= n_len,
            widths@.len() == n_len,
            forall|l: int| 0 <= l < n_len ==> #[trigger] widths@[l] as int == col_width(rows, l),
            out@.len() == 1 + j,
            out@[0]@ == render_row_spec(views_of(head@), rows, n_len as int),
            forall|l: int|
                0 <= l < j ==> #[trigger] out@[l + 1]@ == render_row_spec(
                    views_of(data@[l]@),
                    rows,
                    n_len as int,
                ),
        decreases nrows - j,
    {
        let line = render_one_row(&data[j], &widths, n_len, Ghost(rows));
        out.push(line);
        j += 1;
    }
    out
}

fn render_one_row(
    row: &Vec<String>,
    widths: &Vec<usize>,
    n_len: usize,
    rows: Ghost<Seq<Seq<Seq<char>>>>,
) -> (r: String)
    requires
        row@.len() >= n_len,
        widths@.len() >= n_len,
        forall|l: int| 0 <= l < n_len ==> #[trigger] widths@[l] as int == col_width(rows@, l),
    ensures
        r@ == render_row_spec(views_of(row@), rows@, n_len as int),
{
    let mut line = String::new();
    let mut i: usize = 0;
    while i < n_len
        invariant
            i <= n_len,
            row@.len() >= n_len,
            widths@.len() >= n_len,
            forall|l: int| 0 <= l < n_len ==> #[trigger] widths@[l] as int == col_width(rows@, l),
            line@ == render_row_spec(views_of(row@), rows@, i as int),
        decreases n_len - i,
    {
        let cell = crate::strutil::str_pad(row[i].as_str(), widths[i]);
        line.append(cell.as_str());
        line.append("  ");
        i += 1;
    }
    line
}

} // verus!
