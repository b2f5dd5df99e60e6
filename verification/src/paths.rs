//! Windows paths, as `std::path` reads them on Windows: both `\` and `/` separate
//! components (only `\` after a verbatim `\\?\` prefix), a path may start with a
//! prefix (a drive `C:`, a share `\\server\share`, a device `\\.\name` or a verbatim
//! `\\?\` form), and joining inserts `\`.

use vstd::prelude::*;
use vstd::string::*;
use crate::text::{chars_of, push_char, spec_join};

verus! {

pub open spec fn is_sep(c: char) -> bool {
    c == '/' || c == '\\'
}

/// A separator: only `\` inside a verbatim path, `\` or `/` otherwise.
pub open spec fn is_sep_in(c: char, verbatim: bool) -> bool {
    if verbatim {
        c == '\\'
    } else {
        is_sep(c)
    }
}

pub open spec fn is_ascii_alpha(c: char) -> bool {
    ('a' <= c <= 'z') || ('A' <= c <= 'Z')
}

/// The prefix parser reads `/` as `\`.
pub open spec fn as_backslash(c: char) -> char {
    if c == '/' {
        '\\'
    } else {
        c
    }
}

/// Index of the first separator at or after `i`, or the length.
pub open spec fn next_sep(s: Seq<char>, i: int, verbatim: bool) -> int
    decreases s.len() - i,
{
    if i < 0 || i >= s.len() {
        s.len() as int
    } else if is_sep_in(s[i], verbatim) {
        i
    } else {
        next_sep(s, i + 1, verbatim)
    }
}

pub proof fn lemma_next_sep_bounds(s: Seq<char>, i: int, verbatim: bool)
    requires
        0 <= i <= s.len(),
    ensures
        i <= next_sep(s, i, verbatim) <= s.len(),
        next_sep(s, i, verbatim) < s.len() ==> is_sep_in(s[next_sep(s, i, verbatim)], verbatim),
        forall|k: int| i <= k < next_sep(s, i, verbatim) ==> !is_sep_in(#[trigger] s[k], verbatim),
    decreases s.len() - i,
{
    if i < s.len() && !is_sep_in(s[i], verbatim) {
        lemma_next_sep_bounds(s, i + 1, verbatim);
    }
}

/// The kinds of path prefix.
#[derive(PartialEq, Eq, Structural, Clone, Copy, Debug)]
pub enum PathPrefix {
    NoPrefix,
    /// `C:`
    Disk,
    /// `\\server\share`
    Unc,
    /// `\\.\device`
    DeviceNs,
    /// `\\?\name`
    Verbatim,
    /// `\\?\UNC\server\share`
    VerbatimUnc,
    /// `\\?\C:`
    VerbatimDisk,
}

pub open spec fn is_verbatim(k: PathPrefix) -> bool {
    k == PathPrefix::Verbatim || k == PathPrefix::VerbatimUnc || k == PathPrefix::VerbatimDisk
}

/// Every prefix but a drive implies a root.
pub open spec fn implicit_root(k: PathPrefix) -> bool {
    k != PathPrefix::NoPrefix && k != PathPrefix::Disk
}

/// The prefix of a path and its length.
pub open spec fn spec_prefix(s: Seq<char>) -> (PathPrefix, int) {
    if s.len() >= 2 && as_backslash(s[0]) == '\\' && as_backslash(s[1]) == '\\' {
        if s.len() >= 4 && s[2] == '?' && as_backslash(s[3]) == '\\' {
            if s.len() >= 8 && s[4] == 'U' && s[5] == 'N' && s[6] == 'C' && as_backslash(s[7]) == '\\' {
                let a = next_sep(s, 8, true);
                if a >= s.len() {
                    (PathPrefix::VerbatimUnc, a)
                } else {
                    let b = next_sep(s, a + 1, true);
                    (PathPrefix::VerbatimUnc, if b > a + 1 { b } else { a })
                }
            } else {
                let a = next_sep(s, 4, true);
                if a == 6 && is_ascii_alpha(s[4]) && s[5] == ':' {
                    (PathPrefix::VerbatimDisk, 6)
                } else {
                    (PathPrefix::Verbatim, a)
                }
            }
        } else if s.len() >= 4 && s[2] == '.' && as_backslash(s[3]) == '\\' {
            (PathPrefix::DeviceNs, next_sep(s, 4, false))
        } else {
            let a = next_sep(s, 2, false);
            if a > 2 && a < s.len() && next_sep(s, a + 1, false) > a + 1 {
                (PathPrefix::Unc, next_sep(s, a + 1, false))
            } else {
                (PathPrefix::NoPrefix, 0)
            }
        }
    } else if s.len() >= 2 && is_ascii_alpha(s[0]) && s[1] == ':' {
        (PathPrefix::Disk, 2)
    } else {
        (PathPrefix::NoPrefix, 0)
    }
}

pub proof fn lemma_prefix_bounds(s: Seq<char>)
    ensures
        0 <= spec_prefix(s).1 <= s.len(),
        spec_prefix(s).0 == PathPrefix::NoPrefix <==> spec_prefix(s).1 == 0,
{
    if s.len() >= 8 {
        lemma_next_sep_bounds(s, 8, true);
        let a = next_sep(s, 8, true);
        if a < s.len() {
            lemma_next_sep_bounds(s, a + 1, true);
        }
    }
    if s.len() >= 4 {
        lemma_next_sep_bounds(s, 4, true);
        lemma_next_sep_bounds(s, 4, false);
    }
    if s.len() >= 2 {
        lemma_next_sep_bounds(s, 2, false);
        let a = next_sep(s, 2, false);
        if a < s.len() {
            lemma_next_sep_bounds(s, a + 1, false);
        }
    }
}

fn sep_char(c: char, verbatim: bool) -> (b: bool)
    ensures
        b == is_sep_in(c, verbatim),
{
    if verbatim {
        c == '\\'
    } else {
        c == '/' || c == '\\'
    }
}

fn next_sep_at(v: &Vec<char>, i: usize, verbatim: bool) -> (j: usize)
    requires
        i <= v.len(),
    ensures
        j == next_sep(v@, i as int, verbatim),
{
    let mut j = i;
    while j < v.len() && !sep_char(v[j], verbatim)
        invariant
            i <= j <= v.len(),
            next_sep(v@, j as int, verbatim) == next_sep(v@, i as int, verbatim),
        decreases v.len() - j,
    {
        j = j + 1;
    }
    j
}

fn backslash_at(v: &Vec<char>, i: usize) -> (b: bool)
    requires
        i < v.len(),
    ensures
        b == (as_backslash(v@[i as int]) == '\\'),
{
    v[i] == '/' || v[i] == '\\'
}

/// The prefix of a path and its length.
pub fn path_prefix(v: &Vec<char>) -> (r: (PathPrefix, usize))
    ensures
        r.0 == spec_prefix(v@).0,
        r.1 as int == spec_prefix(v@).1,
{
    proof {
        lemma_prefix_bounds(v@);
    }
    let n = v.len();
    if n >= 2 && backslash_at(v, 0) && backslash_at(v, 1) {
        if n >= 4 && v[2] == '?' && backslash_at(v, 3) {
            if n >= 8 && v[4] == 'U' && v[5] == 'N' && v[6] == 'C' && backslash_at(v, 7) {
                let a = next_sep_at(v, 8, true);
                if a >= n {
                    (PathPrefix::VerbatimUnc, a)
                } else {
                    let b = next_sep_at(v, a + 1, true);
                    (PathPrefix::VerbatimUnc, if b > a + 1 { b } else { a })
                }
            } else {
                let a = next_sep_at(v, 4, true);
                if a == 6 && (('a' <= v[4] && v[4] <= 'z') || ('A' <= v[4] && v[4] <= 'Z')) && v[5] == ':' {
                    (PathPrefix::VerbatimDisk, 6)
                } else {
                    (PathPrefix::Verbatim, a)
                }
            }
        } else if n >= 4 && v[2] == '.' && backslash_at(v, 3) {
            (PathPrefix::DeviceNs, next_sep_at(v, 4, false))
        } else {
            let a = next_sep_at(v, 2, false);
            if a > 2 && a < n {
                let b = next_sep_at(v, a + 1, false);
                if b > a + 1 {
                    return (PathPrefix::Unc, b);
                }
            }
            (PathPrefix::NoPrefix, 0)
        }
    } else if n >= 2 && (('a' <= v[0] && v[0] <= 'z') || ('A' <= v[0] && v[0] <= 'Z')) && v[1] == ':' {
        (PathPrefix::Disk, 2)
    } else {
        (PathPrefix::NoPrefix, 0)
    }
}

/// A component text that stands for the current directory.
pub open spec fn is_dot(p: Seq<char>) -> bool {
    p.len() == 1 && p[0] == '.'
}

/// A component text that stands for the parent directory.
pub open spec fn is_dot_dot(p: Seq<char>) -> bool {
    p.len() == 2 && p[0] == '.' && p[1] == '.'
}

/// The components of a verbatim path's body from `i` on, split at `\`, empty ones
/// dropped, appended to `acc`; `.` and `..` stay as they are.
pub open spec fn verbatim_body(s: Seq<char>, i: int, acc: Seq<Seq<char>>) -> Seq<Seq<char>>
    decreases s.len() - i,
{
    if i < 0 || i > s.len() {
        acc
    } else {
        let j = next_sep(s, i, true);
        let piece = s.subrange(i, j);
        let acc2 = if piece.len() == 0 { acc } else { acc.push(piece) };
        if j >= s.len() {
            acc2
        } else {
            proof {
                lemma_next_sep_bounds(s, i, true);
            }
            verbatim_body(s, j + 1, acc2)
        }
    }
}

/// A component that `..` removes: anything but `.` and `..`.
pub open spec fn is_normal(p: Seq<char>) -> bool {
    !is_dot(p) && !is_dot_dot(p)
}

/// Applies the components of a relative path from `i` on to the components `comps` of a
/// verbatim path: empty and `.` components are skipped, `..` removes a preceding
/// normal component, any other component is appended.
pub open spec fn apply_components(comps: Seq<Seq<char>>, s: Seq<char>, i: int) -> Seq<Seq<char>>
    decreases s.len() - i,
{
    if i < 0 || i > s.len() {
        comps
    } else {
        let j = next_sep(s, i, false);
        let piece = s.subrange(i, j);
        let comps2 = if piece.len() == 0 || is_dot(piece) {
            comps
        } else if is_dot_dot(piece) {
            if comps.len() > 0 && is_normal(comps.last()) {
                comps.drop_last()
            } else {
                comps
            }
        } else {
            comps.push(piece)
        };
        if j >= s.len() {
            comps2
        } else {
            proof {
                lemma_next_sep_bounds(s, i, false);
            }
            apply_components(comps2, s, j + 1)
        }
    }
}

/// Whether a path has a separator right after its prefix.
pub open spec fn has_physical_root(s: Seq<char>) -> bool {
    let pl = spec_prefix(s).1;
    0 <= pl < s.len() && is_sep(s[pl])
}

/// Joining onto a verbatim path rebuilds it from components: the prefix, a `\` when
/// there is a root or any component, then the components separated by `\`.
pub open spec fn spec_verbatim_join(base: Seq<char>, part: Seq<char>) -> Seq<char> {
    let pl = spec_prefix(base).1;
    let root0 = has_physical_root(base);
    let body = verbatim_body(base, if root0 { pl + 1 } else { pl }, seq![]);
    let part_root = part.len() > 0 && is_sep(part[0]);
    let root = root0 || part_root;
    let comps = apply_components(if part_root { seq![] } else { body }, part, 0);
    base.take(pl) + (if root || comps.len() > 0 { seq!['\\'] } else { seq![] }) + spec_join(comps, seq!['\\'])
}

/// `base` joined with `part` (`PathBuf::push` on Windows): a part with a prefix replaces
/// the base; a non-empty part joined onto a verbatim base is rebuilt from components; a
/// part with a root keeps only the base's prefix; otherwise a `\` is inserted unless the
/// base is empty, ends in a separator or is a bare drive.
pub open spec fn spec_join_path(base: Seq<char>, part: Seq<char>) -> Seq<char> {
    let (bk, bpl) = spec_prefix(base);
    if spec_prefix(part).0 != PathPrefix::NoPrefix {
        part
    } else if is_verbatim(bk) && part.len() > 0 {
        spec_verbatim_join(base, part)
    } else if part.len() > 0 && is_sep(part[0]) {
        base.take(bpl) + part
    } else if base.len() > 0 && !is_sep(base.last()) && !(bk == PathPrefix::Disk && bpl == base.len()) {
        base + seq!['\\'] + part
    } else {
        base + part
    }
}

fn push_all(out: &mut String, v: &Vec<char>, lo: usize, hi: usize)
    requires
        lo <= hi <= v.len(),
    ensures
        final(out)@ == old(out)@ + v@.subrange(lo as int, hi as int),
{
    let ghost start = out@;
    let mut i = lo;
    while i < hi
        invariant
            lo <= i <= hi <= v.len(),
            out@ == start + v@.subrange(lo as int, i as int),
        decreases hi - i,
    {
        push_char(out, v[i]);
        i = i + 1;
        assert(out@ =~= start + v@.subrange(lo as int, i as int));
    }
}

fn sub_vec(v: &Vec<char>, lo: usize, hi: usize) -> (r: Vec<char>)
    requires
        lo <= hi <= v.len(),
    ensures
        r@ == v@.subrange(lo as int, hi as int),
{
    let mut r: Vec<char> = Vec::new();
    let mut i = lo;
    while i < hi
        invariant
            lo <= i <= hi <= v.len(),
            r@ == v@.subrange(lo as int, i as int),
        decreases hi - i,
    {
        r.push(v[i]);
        i = i + 1;
        assert(r@ =~= v@.subrange(lo as int, i as int));
    }
    r
}

fn verbatim_join(b: &Vec<char>, p: &Vec<char>) -> (r: String)
    requires
        p@.len() > 0,
    ensures
        r@ == spec_verbatim_join(b@, p@),
{
    let (_, pl) = path_prefix(b);
    proof {
        lemma_prefix_bounds(b@);
    }
    let root0 = pl < b.len() && (b[pl] == '/' || b[pl] == '\\');
    let mut comps: Vec<Vec<char>> = Vec::new();
    let part_root = p[0] == '/' || p[0] == '\\';
    if !part_root {
        let mut i = if root0 { pl + 1 } else { pl };
        let ghost i0 = i as int;
        assert(comps@.map_values(|c: Vec<char>| c@) =~= Seq::<Seq<char>>::empty());
        loop
            invariant_except_break
                verbatim_body(b@, i as int, comps@.map_values(|c: Vec<char>| c@)) == verbatim_body(b@, i0, seq![]),
            invariant
                i <= b@.len(),
            ensures
                comps@.map_values(|c: Vec<char>| c@) == verbatim_body(b@, i0, seq![]),
            decreases b@.len() - i,
        {
            let j = next_sep_at(b, i, true);
            proof {
                lemma_next_sep_bounds(b@, i as int, true);
            }
            let ghost before = comps@.map_values(|c: Vec<char>| c@);
            if j > i {
                let piece = sub_vec(b, i, j);
                comps.push(piece);
                assert(comps@.map_values(|c: Vec<char>| c@) =~= before.push(b@.subrange(i as int, j as int)));
            }
            if j >= b.len() {
                break;
            }
            i = j + 1;
        }
    }
    let ghost body = comps@.map_values(|c: Vec<char>| c@);
    let mut i: usize = 0;
    loop
        invariant_except_break
            apply_components(comps@.map_values(|c: Vec<char>| c@), p@, i as int) == apply_components(body, p@, 0),
        invariant
            i <= p@.len(),
            p@.len() > 0,
        ensures
            comps@.map_values(|c: Vec<char>| c@) == apply_components(body, p@, 0),
        decreases p@.len() - i,
    {
        let j = next_sep_at(p, i, false);
        proof {
            lemma_next_sep_bounds(p@, i as int, false);
        }
        let ghost before = comps@.map_values(|c: Vec<char>| c@);
        let ghost piece = p@.subrange(i as int, j as int);
        let len = j - i;
        let dot = len == 1 && p[i] == '.';
        let dot_dot = len == 2 && p[i] == '.' && p[i + 1] == '.';
        assert(dot == is_dot(piece));
        assert(dot_dot == is_dot_dot(piece));
        if len == 0 || dot {
        } else if dot_dot {
            let n = comps.len();
            if n > 0 {
                let last_len = comps[n - 1].len();
                let normal = !((last_len == 1 && comps[n - 1][0] == '.') || (last_len == 2 && comps[n - 1][0] == '.'
                    && comps[n - 1][1] == '.'));
                assert(before.last() == comps@[n - 1]@);
                if normal {
                    comps.pop();
                    assert(comps@.map_values(|c: Vec<char>| c@) =~= before.drop_last());
                }
            }
        } else {
            let piece_vec = sub_vec(p, i, j);
            comps.push(piece_vec);
            assert(comps@.map_values(|c: Vec<char>| c@) =~= before.push(piece));
        }
        if j >= p.len() {
            break;
        }
        i = j + 1;
    }
    let ghost cs = comps@.map_values(|c: Vec<char>| c@);
    assert(root0 == has_physical_root(b@));
    assert(part_root == (p@.len() > 0 && is_sep(p@[0])));
    assert(body == (if part_root { seq![] } else { verbatim_body(b@, if root0 { pl + 1 } else { pl as int }, seq![]) }));
    assert(cs == apply_components(body, p@, 0));
    let mut r = String::new();
    push_all(&mut r, b, 0, pl);
    assert(b@.subrange(0, pl as int) =~= b@.take(pl as int));
    if root0 || part_root || comps.len() > 0 {
        push_char(&mut r, '\\');
    }
    let ghost head = r@;
    assert(head == b@.take(pl as int) + (if root0 || part_root || cs.len() > 0 { seq!['\\'] } else { seq![] }));
    let mut k: usize = 0;
    while k < comps.len()
        invariant
            k <= comps@.len(),
            cs == comps@.map_values(|c: Vec<char>| c@),
            r@ == head + spec_join(cs.take(k as int), seq!['\\']),
        decreases comps.len() - k,
    {
        assert(cs.take(k + 1).drop_last() =~= cs.take(k as int));
        if k > 0 {
            push_char(&mut r, '\\');
        } else {
            assert(spec_join(cs.take(1), seq!['\\']) == cs[0]);
        }
        let n = comps[k].len();
        push_all(&mut r, &comps[k], 0, n);
        assert(comps@[k as int]@.subrange(0, n as int) =~= cs[k as int]);
        assert(r@ =~= head + spec_join(cs.take(k + 1), seq!['\\']));
        k = k + 1;
    }
    assert(cs.take(k as int) =~= cs);
    r
}

/// Joins a component onto a base path as `PathBuf::push` does on Windows.
pub fn join_path(base: &str, part: &str) -> (r: String)
    ensures
        r@ == spec_join_path(base@, part@),
{
    let b = chars_of(base);
    let p = chars_of(part);
    let (bk, bpl) = path_prefix(&b);
    let (pk, _) = path_prefix(&p);
    proof {
        lemma_prefix_bounds(b@);
    }
    if pk != PathPrefix::NoPrefix {
        return String::from_str(part);
    }
    let verbatim = bk == PathPrefix::Verbatim || bk == PathPrefix::VerbatimUnc || bk == PathPrefix::VerbatimDisk;
    if verbatim && p.len() > 0 {
        return verbatim_join(&b, &p);
    }
    if p.len() > 0 && (p[0] == '/' || p[0] == '\\') {
        let mut r = String::new();
        push_all(&mut r, &b, 0, bpl);
        r.append(part);
        assert(b@.subrange(0, bpl as int) =~= b@.take(bpl as int));
        return r;
    }
    let mut r = String::from_str(base);
    if b.len() > 0 && !(b[b.len() - 1] == '/' || b[b.len() - 1] == '\\') && !(bk == PathPrefix::Disk && bpl == b.len()) {
        push_char(&mut r, '\\');
    }
    r.append(part);
    r
}

/// Index of the last separator in `s[lo..j]`, or -1.
pub open spec fn last_sep_in(s: Seq<char>, lo: int, j: int, verbatim: bool) -> int
    decreases j,
{
    if j <= lo || j > s.len() || j <= 0 {
        -1
    } else if is_sep_in(s[j - 1], verbatim) {
        j - 1
    } else {
        last_sep_in(s, lo, j - 1, verbatim)
    }
}

pub proof fn lemma_last_sep_in_bounds(s: Seq<char>, lo: int, j: int, verbatim: bool)
    requires
        j <= s.len(),
    ensures
        last_sep_in(s, lo, j, verbatim) == -1 || (lo <= last_sep_in(s, lo, j, verbatim) < j
            && is_sep_in(s[last_sep_in(s, lo, j, verbatim)], verbatim)),
        forall|k: int| #![trigger s[k]] last_sep_in(s, lo, j, verbatim) < k < j && lo <= k && 0 <= k < s.len()
            ==> !is_sep_in(s[k], verbatim),
    decreases j,
{
    if !(j <= lo || j > s.len() || j <= 0) && !is_sep_in(s[j - 1], verbatim) {
        lemma_last_sep_in_bounds(s, lo, j - 1, verbatim);
    }
}

/// Where the path ends once its last component (read back from `j`, not before `lo`) and
/// the separator before it are removed.
pub open spec fn cut_point(s: Seq<char>, lo: int, j: int, verbatim: bool) -> int {
    let q = last_sep_in(s, lo, j, verbatim);
    if q < 0 {
        lo
    } else {
        q
    }
}

/// The last component of `s[lo..j]`.
pub open spec fn last_piece(s: Seq<char>, lo: int, j: int, verbatim: bool) -> Seq<char> {
    let q = last_sep_in(s, lo, j, verbatim);
    s.subrange(if q < 0 { lo } else { q + 1 }, j)
}

/// A component that a path's component list leaves out: an empty one, or `.` outside
/// verbatim paths.
pub open spec fn is_skipped(piece: Seq<char>, verbatim: bool) -> bool {
    piece.len() == 0 || (!verbatim && is_dot(piece))
}

/// The end of `s[..j]` once trailing empty and `.` components are removed (not before `lo`).
pub open spec fn trim_back(s: Seq<char>, lo: int, j: int, verbatim: bool) -> int
    decreases j,
{
    if lo < 0 || j <= lo || j > s.len() {
        j
    } else if is_skipped(last_piece(s, lo, j, verbatim), verbatim) {
        proof {
            lemma_last_sep_in_bounds(s, lo, j, verbatim);
        }
        trim_back(s, lo, cut_point(s, lo, j, verbatim), verbatim)
    } else {
        j
    }
}

pub proof fn lemma_trim_back_bounds(s: Seq<char>, lo: int, j: int, verbatim: bool)
    requires
        0 <= lo <= j <= s.len(),
    ensures
        lo <= trim_back(s, lo, j, verbatim) <= j,
        trim_back(s, lo, j, verbatim) > lo ==> !is_skipped(last_piece(s, lo, trim_back(s, lo, j, verbatim), verbatim), verbatim),
    decreases j,
{
    if j > lo && is_skipped(last_piece(s, lo, j, verbatim), verbatim) {
        lemma_last_sep_in_bounds(s, lo, j, verbatim);
        lemma_trim_back_bounds(s, lo, cut_point(s, lo, j, verbatim), verbatim);
    }
}

/// A path with no root that starts with a `.` component.
pub open spec fn starts_with_cur_dir(s: Seq<char>) -> bool {
    let (k, pl) = spec_prefix(s);
    !has_physical_root(s) && !implicit_root(k) && 0 <= pl < s.len() && s[pl] == '.' && (pl + 1 == s.len()
        || is_sep(s[pl + 1]))
}

/// Where a path's body starts: after its prefix, its root and a leading `.`.
pub open spec fn body_start(s: Seq<char>) -> int {
    spec_prefix(s).1 + (if has_physical_root(s) { 1int } else { 0int }) + (if starts_with_cur_dir(s) { 1int } else { 0int })
}

/// `Path::parent` on Windows: `None` when the path's last component is its prefix or root
/// or there is none; otherwise the path without its last component and the separators and
/// `.` components before it.
pub open spec fn spec_parent_path(p: Seq<char>) -> Option<Seq<char>> {
    let (k, pl) = spec_prefix(p);
    let verbatim = is_verbatim(k);
    let lb = body_start(p);
    let j = trim_back(p, lb, p.len() as int, verbatim);
    if j > lb {
        Some(p.take(trim_back(p, lb, cut_point(p, lb, j, verbatim), verbatim)))
    } else if k == PathPrefix::NoPrefix && starts_with_cur_dir(p) {
        Some(p.take(j - 1))
    } else {
        None
    }
}

fn last_sep_at(v: &Vec<char>, lo: usize, j: usize, verbatim: bool) -> (q: Option<usize>)
    requires
        lo <= j <= v.len(),
    ensures
        match q {
            Some(x) => x as int == last_sep_in(v@, lo as int, j as int, verbatim),
            None => last_sep_in(v@, lo as int, j as int, verbatim) == -1,
        },
{
    let mut k = j;
    while k > lo && !sep_char(v[k - 1], verbatim)
        invariant
            lo <= k <= j <= v.len(),
            last_sep_in(v@, lo as int, k as int, verbatim) == last_sep_in(v@, lo as int, j as int, verbatim),
        decreases k,
    {
        k = k - 1;
    }
    if k > lo {
        Some(k - 1)
    } else {
        None
    }
}

fn trim_back_at(v: &Vec<char>, lo: usize, j: usize, verbatim: bool) -> (r: usize)
    requires
        lo <= j <= v.len(),
    ensures
        r as int == trim_back(v@, lo as int, j as int, verbatim),
{
    let mut k = j;
    loop
        invariant
            lo <= k <= j <= v.len(),
            trim_back(v@, lo as int, k as int, verbatim) == trim_back(v@, lo as int, j as int, verbatim),
        decreases k,
    {
        if k <= lo {
            return k;
        }
        proof {
            lemma_last_sep_in_bounds(v@, lo as int, k as int, verbatim);
        }
        let q = last_sep_at(v, lo, k, verbatim);
        let (start, cut) = match q {
            Some(x) => (x + 1, x),
            None => (lo, lo),
        };
        let len = k - start;
        let skipped = len == 0 || (!verbatim && len == 1 && v[start] == '.');
        assert(last_piece(v@, lo as int, k as int, verbatim) =~= v@.subrange(start as int, k as int));
        assert(skipped == is_skipped(last_piece(v@, lo as int, k as int, verbatim), verbatim));
        if !skipped {
            return k;
        }
        k = cut;
    }
}

/// The directory part of a path, as `Path::parent` gives it on Windows.
pub fn parent_path(path: &str) -> (r: Option<String>)
    ensures
        match spec_parent_path(path@) {
            Some(d) => r matches Some(s) && s@ == d,
            None => r is None,
        },
{
    let v = chars_of(path);
    let (k, pl) = path_prefix(&v);
    proof {
        lemma_prefix_bounds(v@);
    }
    let verbatim = k == PathPrefix::Verbatim || k == PathPrefix::VerbatimUnc || k == PathPrefix::VerbatimDisk;
    let root = pl < v.len() && (v[pl] == '/' || v[pl] == '\\');
    let implicit = k != PathPrefix::NoPrefix && k != PathPrefix::Disk;
    let cur = !root && !implicit && pl < v.len() && v[pl] == '.' && (pl + 1 == v.len() || v[pl + 1] == '/' || v[pl
        + 1] == '\\');
    let lb = pl + (if root { 1 } else { 0 }) + (if cur { 1 } else { 0 });
    assert(lb as int == body_start(v@));
    let j = trim_back_at(&v, lb, v.len(), verbatim);
    proof {
        lemma_trim_back_bounds(v@, lb as int, v.len() as int, verbatim);
    }
    if j > lb {
        proof {
            lemma_last_sep_in_bounds(v@, lb as int, j as int, verbatim);
        }
        let cut = match last_sep_at(&v, lb, j, verbatim) {
            Some(x) => x,
            None => lb,
        };
        let e = trim_back_at(&v, lb, cut, verbatim);
        proof {
            lemma_trim_back_bounds(v@, lb as int, cut as int, verbatim);
        }
        let mut s = String::new();
        push_all(&mut s, &v, 0, e);
        assert(v@.subrange(0, e as int) =~= v@.take(e as int));
        Some(s)
    } else if k == PathPrefix::NoPrefix && cur {
        let mut s = String::new();
        push_all(&mut s, &v, 0, j - 1);
        assert(v@.subrange(0, j - 1) =~= v@.take(j - 1));
        Some(s)
    } else {
        None
    }
}

/// UTF-16 code units of one character.
pub open spec fn utf16_units(c: char) -> Seq<u16> {
    let u = c as u32;
    if u < 0x10000 {
        seq![u as u16]
    } else {
        let v = (u - 0x10000) as nat;
        seq![(0xD800 + v / 0x400) as u16, (0xDC00 + v % 0x400) as u16]
    }
}

/// UTF-16 encoding of a character sequence.
pub open spec fn spec_utf16(s: Seq<char>) -> Seq<u16>
    decreases s.len(),
{
    if s.len() == 0 {
        seq![]
    } else {
        spec_utf16(s.drop_last()) + utf16_units(s.last())
    }
}

/// The NUL-terminated UTF-16 form of a path, as wide Windows APIs take it.
pub fn wide_null(path: &str) -> (r: Vec<u16>)
    ensures
        r@ == spec_utf16(path@).push(0),
{
    let v = chars_of(path);
    let mut r: Vec<u16> = Vec::new();
    let mut i: usize = 0;
    while i < v.len()
        invariant
            i <= v@.len(),
            v@ == path@,
            r@ == spec_utf16(v@.take(i as int)),
        decreases v.len() - i,
    {
        proof {
            assert(v@.take(i + 1).drop_last() =~= v@.take(i as int));
        }
        let u = v[i] as u32;
        if u < 0x10000 {
            r.push(u as u16);
        } else {
            let w = u - 0x10000;
            r.push((0xD800 + w / 0x400) as u16);
            r.push((0xDC00 + w % 0x400) as u16);
        }
        proof {
            assert(r@ =~= spec_utf16(v@.take(i as int)) + utf16_units(v@[i as int]));
        }
        i = i + 1;
    }
    assert(v@.take(i as int) =~= v@);
    r.push(0);
    r
}

} // verus!
