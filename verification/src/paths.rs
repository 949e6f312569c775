//! Unix path pieces used by the library: the final component of a path
//! (`Path::file_name`) and its extension (`Path::extension`), on the path's
//! characters; parent and join go through `std::path`.

use vstd::prelude::*;


verus! {

/// Index just after the last `/` of `p` (0 when `p` has none).
pub open spec fn seg_start(p: Seq<char>) -> nat
    decreases p.len(),
{
    if p.len() == 0 {
        0
    } else if p.last() == '/' {
        p.len()
    } else {
        seg_start(p.drop_last())
    }
}

/// `seg_start` lies within `p`, strictly before its end when `p` does not end in `/`.
pub proof fn lemma_seg_start_bound(p: Seq<char>)
    ensures
        seg_start(p) <= p.len(),
        p.len() > 0 && p.last() != '/' ==> seg_start(p) < p.len(),
        forall|j: int| seg_start(p) <= j < p.len() ==> p[j] != '/',
        seg_start(p) > 0 ==> p[seg_start(p) - 1] == '/',
    decreases p.len(),
{
    if p.len() > 0 && p.last() != '/' {
        let d = p.drop_last();
        lemma_seg_start_bound(d);
        assert forall|j: int| seg_start(p) <= j < p.len() implies p[j] != '/' by {
            if j < d.len() {
                assert(d[j] == p[j]);
            }
        }
        if seg_start(p) > 0 {
            assert(d[seg_start(p) - 1] == p[seg_start(p) - 1]);
        }
    }
}

/// The final component of a Unix path (`Path::file_name`): trailing `/` and
/// `.` components are skipped, a final `..` or an empty path gives `None`.
pub open spec fn file_name_of(p: Seq<char>) -> Option<Seq<char>>
    decreases p.len(),
{
    if p.len() == 0 {
        None
    } else if p.last() == '/' {
        file_name_of(p.drop_last())
    } else {
        let k = seg_start(p);
        let seg = p.subrange(k as int, p.len() as int);
        if seg == seq!['.'] {
            proof {
                lemma_seg_start_bound(p);
            }
            file_name_of(p.take(k as int))
        } else if seg == seq!['.', '.'] {
            None
        } else {
            Some(seg)
        }
    }
}

/// Index of the last `.` in `s`, or -1.
pub open spec fn last_dot(s: Seq<char>) -> int
    decreases s.len(),
{
    if s.len() == 0 {
        -1
    } else if s.last() == '.' {
        s.len() - 1
    } else {
        last_dot(s.drop_last())
    }
}

/// The extension of a file name (`Path::extension` after `file_name`): the
/// text after the last `.`, unless the name has no `.` or only a leading one.
pub open spec fn extension_of_name(name: Seq<char>) -> Option<Seq<char>> {
    let d = last_dot(name);
    if name == seq!['.', '.'] || d <= 0 {
        None
    } else {
        Some(name.skip(d + 1))
    }
}

/// The extension of a Unix path.
pub open spec fn extension_of(p: Seq<char>) -> Option<Seq<char>> {
    match file_name_of(p) {
        Some(name) => extension_of_name(name),
        None => None,
    }
}

proof fn lemma_seg_start_is(p: Seq<char>, j: int)
    requires
        0 <= j <= p.len(),
        forall|i: int| j <= i < p.len() ==> p[i] != '/',
        j == 0 || p[j - 1] == '/',
    ensures
        seg_start(p) == j,
    decreases p.len(),
{
    if p.len() > 0 && p.len() > j {
        let d = p.drop_last();
        assert forall|i: int| j <= i < d.len() implies d[i] != '/' by {
            assert(d[i] == p[i]);
        }
        if j > 0 {
            assert(d[j - 1] == p[j - 1]);
        }
        lemma_seg_start_is(d, j);
    }
}

proof fn lemma_last_dot_is(s: Seq<char>, j: int)
    requires
        -1 <= j < s.len(),
        forall|i: int| j < i < s.len() ==> s[i] != '.',
        j == -1 || s[j] == '.',
    ensures
        last_dot(s) == j,
    decreases s.len(),
{
    if s.len() > 0 && s.len() - 1 != j {
        let d = s.drop_last();
        assert forall|i: int| j < i < d.len() implies d[i] != '.' by {
            assert(d[i] == s[i]);
        }
        if j >= 0 {
            assert(d[j] == s[j]);
        }
        lemma_last_dot_is(d, j);
    }
}

/// The final component of the path `p`, if it has one.
pub fn file_name(p: &[char]) -> (out: Option<Vec<char>>)
    ensures
        match out {
            Some(v) => file_name_of(p@) == Some(v@),
            None => file_name_of(p@) is None,
        },
{
    let mut end: usize = p.len();
    assert(p@.take(end as int) =~= p@);
    loop
        invariant
            end <= p.len(),
            file_name_of(p@) == file_name_of(p@.take(end as int)),
        decreases end,
    {
        let ghost q = p@.take(end as int);
        if end == 0 {
            return None;
        }
        if p[end - 1] == '/' {
            assert(q.drop_last() =~= p@.take(end - 1));
            end = end - 1;
        } else {
            let mut j: usize = end;
            while j > 0 && p[j - 1] != '/'
                invariant
                    j <= end <= p.len(),
                    forall|i: int| j <= i < end ==> p@[i] != '/',
                decreases j,
            {
                j = j - 1;
            }
            proof {
                assert forall|i: int| j <= i < q.len() implies q[i] != '/' by {
                    assert(q[i] == p@[i]);
                }
                if j > 0 {
                    assert(q[j - 1] == p@[j - 1]);
                }
                lemma_seg_start_is(q, j as int);
            }
            let ghost seg = q.subrange(j as int, q.len() as int);
            if end - j == 1 && p[j] == '.' {
                assert(seg =~= seq!['.']);
                assert(q.take(j as int) =~= p@.take(j as int));
                end = j;
            } else if end - j == 2 && p[j] == '.' && p[j + 1] == '.' {
                assert(seg =~= seq!['.', '.']);
                return None;
            } else {
                proof {
                    if seg == seq!['.'] {
                        assert(seg[0] == p@[j as int]);
                    }
                    if seg == seq!['.', '.'] {
                        assert(seg[0] == p@[j as int]);
                        assert(seg[1] == p@[j + 1]);
                    }
                }
                let mut out: Vec<char> = Vec::new();
                let mut k: usize = j;
                while k < end
                    invariant
                        j <= k <= end <= p.len(),
                        out@ == p@.subrange(j as int, k as int),
                    decreases end - k,
                {
                    out.push(p[k]);
                    assert(p@.subrange(j as int, k as int).push(p@[k as int]) =~= p@.subrange(
                        j as int,
                        k + 1,
                    ));
                    k = k + 1;
                }
                assert(out@ =~= seg);
                return Some(out);
            }
        }
    }
}

/// The extension of a file name.
pub fn name_extension(name: &[char]) -> (out: Option<Vec<char>>)
    ensures
        match out {
            Some(v) => extension_of_name(name@) == Some(v@),
            None => extension_of_name(name@) is None,
        },
{
    let n = name.len();
    if n == 2 && name[0] == '.' && name[1] == '.' {
        assert(name@ =~= seq!['.', '.']);
        return None;
    }
    proof {
        if name@ == seq!['.', '.'] {
            assert(name@[0] == '.');
        }
    }
    let mut j: usize = n;
    while j > 0 && name[j - 1] != '.'
        invariant
            j <= n == name@.len(),
            forall|i: int| j <= i < n ==> name@[i] != '.',
        decreases j,
    {
        j = j - 1;
    }
    proof {
        lemma_last_dot_is(name@, j - 1);
    }
    if j <= 1 {
        return None;
    }
    let mut out: Vec<char> = Vec::new();
    let mut k: usize = j;
    while k < n
        invariant
            j <= k <= n == name@.len(),
            out@ == name@.subrange(j as int, k as int),
        decreases n - k,
    {
        out.push(name[k]);
        assert(name@.subrange(j as int, k as int).push(name@[k as int]) =~= name@.subrange(
            j as int,
            k + 1,
        ));
        k = k + 1;
    }
    assert(out@ =~= name@.skip(j as int));
    Some(out)
}

/// The extension of the path `p`.
pub fn extension(p: &[char]) -> (out: Option<Vec<char>>)
    ensures
        match out {
            Some(v) => extension_of(p@) == Some(v@),
            None => extension_of(p@) is None,
        },
{
    match file_name(p) {
        Some(name) => name_extension(name.as_slice()),
        None => None,
    }
}

/// The stem of a file name (`Path::file_stem` after `file_name`): the text
/// before the last `.`, or the whole name when it has no `.` or only a
/// leading one.
pub open spec fn stem_of_name(name: Seq<char>) -> Seq<char> {
    let d = last_dot(name);
    if d <= 0 {
        name
    } else {
        name.take(d)
    }
}

/// The stem of the final component of a Unix path.
pub open spec fn file_stem_of(p: Seq<char>) -> Option<Seq<char>> {
    match file_name_of(p) {
        Some(name) => Some(stem_of_name(name)),
        None => None,
    }
}

/// The stem of a file name.
pub fn name_stem(name: &[char]) -> (out: Vec<char>)
    ensures
        out@ == stem_of_name(name@),
{
    let n = name.len();
    let mut j: usize = n;
    while j > 0 && name[j - 1] != '.'
        invariant
            j <= n == name@.len(),
            forall|i: int| j <= i < n ==> name@[i] != '.',
        decreases j,
    {
        j = j - 1;
    }
    proof {
        lemma_last_dot_is(name@, j - 1);
    }
    let end: usize = if j <= 1 { n } else { j - 1 };
    let mut out: Vec<char> = Vec::new();
    let mut k: usize = 0;
    while k < end
        invariant
            k <= end <= n == name@.len(),
            out@ == name@.take(k as int),
        decreases end - k,
    {
        out.push(name[k]);
        assert(name@.take(k as int).push(name@[k as int]) =~= name@.take(k + 1));
        k = k + 1;
    }
    assert(name@.take(n as int) =~= name@);
    out
}

/// The stem of the final component of the path `p`.
pub fn file_stem(p: &[char]) -> (out: Option<Vec<char>>)
    ensures
        match out {
            Some(v) => file_stem_of(p@) == Some(v@),
            None => file_stem_of(p@) is None,
        },
{
    match file_name(p) {
        Some(name) => Some(name_stem(name.as_slice())),
        None => None,
    }
}

/// What `Path::parent` gives for a path (the path without its final component).
pub uninterp spec fn std_path_parent(p: Seq<char>) -> Option<Seq<char>>;

/// What `Path::join` gives for a base path and a relative part.
pub uninterp spec fn std_path_join(base: Seq<char>, part: Seq<char>) -> Seq<char>;

/// `Path::parent`, as text. The result is what std computes for this path,
/// named by [`std_path_parent`]; nothing more is stated of it.
#[verifier::external_body]
pub fn path_parent(p: &str) -> (out: Option<String>)
    ensures
        match out {
            Some(s) => std_path_parent(p@) == Some(s@),
            None => std_path_parent(p@) is None,
        },
{
    std::path::Path::new(p).parent().map(|q| q.to_string_lossy().into_owned())
}

/// `Path::join`, as text. The result is what std computes for these arguments,
/// named by [`std_path_join`].
#[verifier::external_body]
pub fn path_join(base: &str, part: &str) -> (out: String)
    ensures
        out@ == std_path_join(base@, part@),
{
    std::path::Path::new(base).join(part).to_string_lossy().into_owned()
}

/// What `Path::starts_with` gives: whether `base` is a leading run of whole
/// components of `p`.
pub uninterp spec fn std_path_starts_with(p: Seq<char>, base: Seq<char>) -> bool;

/// What `==` on two `Path`s gives (they compare component by component).
pub uninterp spec fn std_path_eq(a: Seq<char>, b: Seq<char>) -> bool;

/// `Path::starts_with`, on text. The result is what std computes for these
/// arguments, named by [`std_path_starts_with`].
#[verifier::external_body]
pub fn path_starts_with(p: &str, base: &str) -> (b: bool)
    ensures
        b == std_path_starts_with(p@, base@),
{
    std::path::Path::new(p).starts_with(base)
}

/// `==` on two `Path`s, on text. The result is what std computes for these
/// arguments, named by [`std_path_eq`].
#[verifier::external_body]
pub fn path_eq(a: &str, b: &str) -> (r: bool)
    ensures
        r == std_path_eq(a@, b@),
{
    std::path::Path::new(a) == std::path::Path::new(b)
}

/// A file path lies in a folder: it is the folder, or the folder (with a
/// trailing separator) leads it.
pub open spec fn path_under_folder_of(path: Seq<char>, folder: Seq<char>) -> bool {
    std_path_eq(path, folder) || std_path_starts_with(path, std_path_join(folder, seq![]))
}

/// Exec form of [`path_under_folder_of`].
pub fn path_under_folder(path: &str, folder: &str) -> (b: bool)
    ensures
        b == path_under_folder_of(path@, folder@),
{
    if path_eq(path, folder) {
        return true;
    }
    let joined = path_join(folder, "");
    proof {
        reveal_strlit("");
        assert(""@ =~= seq![]);
    }
    path_starts_with(path, joined.as_str())
}

} // verus!
