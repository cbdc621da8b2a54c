//! File-name parts of `/`-separated paths, as `std::path::Path` computes
//! them on Unix.

use vstd::prelude::*;

use crate::text::{chars_eq, chars_of, string_of_chars};

verus! {

broadcast use vstd::string::group_string_axioms;

/// The characters after the last `/` of `p` (all of `p` when it has none).
pub open spec fn trailing_segment(p: Seq<char>) -> Seq<char>
    decreases p.len(),
{
    if p.len() == 0 || p.last() == '/' {
        seq![]
    } else {
        trailing_segment(p.drop_last()).push(p.last())
    }
}

/// The final component of `p` (`Path::file_name`): trailing separators and
/// `.` components are skipped; a path that ends in `..`, or has no normal
/// component, has none.
pub open spec fn file_name(p: Seq<char>) -> Option<Seq<char>>
    decreases p.len(),
{
    if p.len() == 0 {
        None
    } else if p.last() == '/' {
        file_name(p.drop_last())
    } else {
        let seg = trailing_segment(p);
        if seg == seq!['.'] {
            file_name(p.drop_last())
        } else if seg == seq!['.', '.'] {
            None
        } else {
            Some(seg)
        }
    }
}

/// The index of the last `.` in `s`, or `-1`.
pub open spec fn last_dot(s: Seq<char>) -> int
    decreases s.len(),
{
    if s.len() == 0 {
        -1
    } else if s.last() == '.' {
        s.len() - 1
    } else {
        last_dot(s.drop_last())
    }
}

/// The stem of a file name (`Path::file_stem`): the part before its last
/// `.`, or the whole name when it has no `.` other than a leading one.
pub open spec fn stem_of(name: Seq<char>) -> Seq<char> {
    if last_dot(name) <= 0 {
        name
    } else {
        name.take(last_dot(name))
    }
}

/// The extension of a file name (`Path::extension`): the part after its
/// last `.`, when that `.` is not its first character.
pub open spec fn extension_of(name: Seq<char>) -> Option<Seq<char>> {
    if last_dot(name) <= 0 {
        None
    } else {
        Some(name.skip(last_dot(name) + 1))
    }
}

/// The stem of the file a path names.
pub open spec fn file_stem(p: Seq<char>) -> Option<Seq<char>> {
    match file_name(p) {
        Some(name) => Some(stem_of(name)),
        None => None,
    }
}

/// The extension of the file a path names.
pub open spec fn extension(p: Seq<char>) -> Option<Seq<char>> {
    match file_name(p) {
        Some(name) => extension_of(name),
        None => None,
    }
}

proof fn lemma_trailing_segment_split(p: Seq<char>, j: int, end: int)
    requires
        0 <= j <= end <= p.len(),
        forall|k: int| j <= k < end ==> p[k] != '/',
        j == 0 || p[j - 1] == '/',
    ensures
        trailing_segment(p.take(end)) == p.subrange(j, end),
    decreases end - j,
{
    if end == j {
        if j > 0 {
            assert(p.take(end).last() == '/');
        }
        assert(p.subrange(j, end) =~= Seq::<char>::empty());
    } else {
        lemma_trailing_segment_split(p, j, end - 1);
        assert(p.take(end).drop_last() =~= p.take(end - 1));
        assert(p.subrange(j, end - 1).push(p[end - 1]) =~= p.subrange(j, end));
    }
}

/// The final component of a path, if it has one.
pub fn path_file_name(path: &str) -> (r: Option<Vec<char>>)
    ensures
        r is Some <==> file_name(path@) is Some,
        r matches Some(v) ==> file_name(path@) == Some(v@),
{
    let p = chars_of(path);
    let mut end: usize = p.len();
    assert(p@.take(end as int) =~= p@);
    loop
        invariant
            p@ == path@,
            end <= p.len(),
            file_name(path@) == file_name(p@.take(end as int)),
        decreases end,
    {
        if end == 0 {
            return None;
        }
        let ghost cur = p@.take(end as int);
        if p[end - 1] == '/' {
            assert(cur.drop_last() =~= p@.take(end - 1));
            end = end - 1;
        } else {
            let mut j: usize = end;
            while j > 0 && p[j - 1] != '/'
                invariant
                    j <= end <= p.len(),
                    forall|k: int| j <= k < end ==> p@[k] != '/',
                decreases j,
            {
                j = j - 1;
            }
            proof {
                lemma_trailing_segment_split(p@, j as int, end as int);
            }
            let mut seg: Vec<char> = Vec::new();
            let mut k: usize = j;
            while k < end
                invariant
                    j <= k <= end <= p.len(),
                    seg@ == p@.subrange(j as int, k as int),
                decreases end - k,
            {
                seg.push(p[k]);
                assert(p@.subrange(j as int, k as int).push(p@[k as int]) =~= p@.subrange(
                    j as int,
                    k + 1,
                ));
                k = k + 1;
            }
            let dot = vec!['.'];
            let dotdot = vec!['.', '.'];
            assert(dot@ =~= seq!['.']);
            assert(dotdot@ =~= seq!['.', '.']);
            assert(trailing_segment(cur) == seg@);
            if chars_eq(&seg, &dot) {
                assert(cur.drop_last() =~= p@.take(end - 1));
                end = end - 1;
            } else if chars_eq(&seg, &dotdot) {
                return None;
            } else {
                return Some(seg);
            }
        }
    }
}

/// The index of the last `.` in `name`, if any.
fn find_last_dot(name: &Vec<char>) -> (r: Option<usize>)
    ensures
        r is None <==> last_dot(name@) == -1,
        r matches Some(i) ==> last_dot(name@) == i && i < name@.len(),
{
    let mut i: usize = name.len();
    assert(name@.take(i as int) =~= name@);
    while i > 0
        invariant
            i <= name.len(),
            last_dot(name@) == last_dot(name@.take(i as int)),
        decreases i,
    {
        assert(name@.take(i as int).drop_last() =~= name@.take(i - 1));
        if name[i - 1] == '.' {
            return Some(i - 1);
        }
        i = i - 1;
    }
    None
}

/// The stem of the file `path` names (`Path::file_stem`).
pub fn path_file_stem(path: &str) -> (r: Option<String>)
    ensures
        r is Some <==> file_stem(path@) is Some,
        r matches Some(s) ==> file_stem(path@) == Some(s@),
{
    let name = match path_file_name(path) {
        Some(n) => n,
        None => return None,
    };
    match find_last_dot(&name) {
        Some(i) => if i == 0 {
            Some(string_of_chars(&name))
        } else {
            let mut stem: Vec<char> = Vec::new();
            let mut k: usize = 0;
            while k < i
                invariant
                    k <= i < name@.len(),
                    stem@ == name@.take(k as int),
                decreases i - k,
            {
                stem.push(name[k]);
                assert(name@.take(k as int).push(name@[k as int]) =~= name@.take(k + 1));
                k = k + 1;
            }
            Some(string_of_chars(&stem))
        },
        None => Some(string_of_chars(&name)),
    }
}

/// Whether the file `path` names has the extension `plist`.
pub fn has_plist_extension(path: &str) -> (r: bool)
    ensures
        r == (extension(path@) == Some(seq!['p', 'l', 'i', 's', 't'])),
{
    let name = match path_file_name(path) {
        Some(n) => n,
        None => return false,
    };
    match find_last_dot(&name) {
        Some(i) => if i == 0 {
            false
        } else {
            let mut ext: Vec<char> = Vec::new();
            assert(i < name.len());
            let mut k: usize = i + 1;
            while k < name.len()
                invariant
                    i < k <= name@.len(),
                    ext@ == name@.subrange(i + 1, k as int),
                decreases name.len() - k,
            {
                ext.push(name[k]);
                assert(name@.subrange(i + 1, k as int).push(name@[k as int]) =~= name@.subrange(
                    i + 1,
                    k + 1,
                ));
                k = k + 1;
            }
            assert(ext@ =~= name@.skip(i + 1));
            let plist = vec!['p', 'l', 'i', 's', 't'];
            assert(plist@ =~= seq!['p', 'l', 'i', 's', 't']);
            chars_eq(&ext, &plist)
        },
        None => false,
    }
}

} // verus!
