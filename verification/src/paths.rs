//! Path arithmetic on plain strings.
//!
//! Paths are modeled as character sequences with `/` as the separator. The
//! extension of a file name is the part after its final dot; only a name
//! with no dot at all has none, so a name whose one dot leads, such as
//! `.png`, has the extension `png` and an empty stem.

use vstd::prelude::*;
use vstd::string::*;

verus! {

/// Index of the last occurrence of `c` in `s`, or -1 when `c` does not occur.
pub open spec fn last_index_of(s: Seq<char>, c: char) -> int
    decreases s.len(),
{
    if s.len() == 0 {
        -1
    } else if s[s.len() - 1] == c {
        s.len() - 1
    } else {
        last_index_of(s.drop_last(), c)
    }
}

/// `last_index_of` is the largest index holding `c`, and -1 means `c` is absent.
pub proof fn lemma_last_index_of(s: Seq<char>, c: char)
    ensures
        -1 <= last_index_of(s, c) < s.len(),
        last_index_of(s, c) >= 0 ==> s[last_index_of(s, c)] == c,
        forall|j: int| last_index_of(s, c) < j < s.len() ==> s[j] != c,
    decreases s.len(),
{
    if s.len() > 0 && s[s.len() - 1] != c {
        lemma_last_index_of(s.drop_last(), c);
        assert forall|j: int| last_index_of(s, c) < j < s.len() implies s[j] != c by {
            if j < s.len() - 1 {
                assert(s.drop_last()[j] == s[j]);
            }
        }
    }
}

/// Index of the last occurrence of `c` in `s`, if any.
pub fn rfind_char(s: &str, c: char) -> (r: Option<usize>)
    ensures
        match r {
            Some(i) => i < s@.len() && last_index_of(s@, c) == i,
            None => last_index_of(s@, c) == -1,
        },
{
    let n = s.unicode_len();
    let mut i: usize = n;
    proof {
        assert(s@.subrange(0, n as int) =~= s@);
    }
    while i > 0
        invariant
            i <= n,
            n == s@.len(),
            last_index_of(s@, c) == last_index_of(s@.subrange(0, i as int), c),
        decreases i,
    {
        let ch = s.get_char(i - 1);
        proof {
            let t = s@.subrange(0, i as int);
            assert(t[t.len() - 1] == s@[i - 1]);
            if ch != c {
                assert(t.drop_last() =~= s@.subrange(0, i as int - 1));
            }
        }
        if ch == c {
            return Some(i - 1);
        }
        i = i - 1;
    }
    proof {
        assert(s@.subrange(0, 0) =~= Seq::<char>::empty());
    }
    None
}

/// Appending characters other than `c` does not move the last occurrence
/// of `c`.
pub proof fn lemma_last_index_of_concat(a: Seq<char>, b: Seq<char>, c: char)
    requires
        forall|k: int| 0 <= k < b.len() ==> b[k] != c,
    ensures
        last_index_of(a + b, c) == last_index_of(a, c),
    decreases b.len(),
{
    if b.len() == 0 {
        assert(a + b =~= a);
    } else {
        assert((a + b).last() == b.last());
        assert((a + b).drop_last() =~= a + b.drop_last());
        lemma_last_index_of_concat(a, b.drop_last(), c);
    }
}

/// A character absent from `s` has no last occurrence in it.
pub proof fn lemma_last_index_of_absent(s: Seq<char>, c: char)
    requires
        forall|k: int| 0 <= k < s.len() ==> s[k] != c,
    ensures
        last_index_of(s, c) == -1,
{
    lemma_last_index_of(s, c);
}

/// The file name of a join is the joined name, whenever that name holds no
/// separator.
pub proof fn lemma_file_name_of_join(dir: Seq<char>, name: Seq<char>)
    requires
        forall|k: int| 0 <= k < name.len() ==> name[k] != '/',
    ensures
        file_name_of(join_of(dir, name)) == name,
{
    let p = join_of(dir, name);
    if dir.len() == 0 {
        lemma_last_index_of_absent(name, '/');
        assert(p.subrange(0, p.len() as int) =~= name);
    } else if dir[dir.len() - 1] == '/' {
        lemma_last_index_of_concat(dir, name, '/');
        assert(last_index_of(dir, '/') == dir.len() - 1);
        assert(p.subrange(dir.len() as int, p.len() as int) =~= name);
    } else {
        let d2 = dir + seq!['/'];
        assert(p =~= d2 + name);
        lemma_last_index_of_concat(d2, name, '/');
        assert(d2.last() == '/');
        assert(last_index_of(d2, '/') == d2.len() - 1);
        assert(p.subrange(d2.len() as int, p.len() as int) =~= name);
    }
}

/// The file name of `p`: everything after the last separator.
pub open spec fn file_name_of(p: Seq<char>) -> Seq<char> {
    p.subrange(last_index_of(p, '/') + 1, p.len() as int)
}

/// The stem of a file name: the part before its final dot, or the whole name
/// when the name has no dot.
pub open spec fn stem_of(name: Seq<char>) -> Seq<char> {
    if last_index_of(name, '.') < 0 {
        name
    } else {
        name.subrange(0, last_index_of(name, '.'))
    }
}

/// The extension of a file name: the part after its final dot, or nothing
/// when the name has no dot.
pub open spec fn ext_of(name: Seq<char>) -> Option<Seq<char>> {
    if last_index_of(name, '.') < 0 {
        None
    } else {
        Some(name.subrange(last_index_of(name, '.') + 1, name.len() as int))
    }
}

/// The parent of `p`: everything before the last separator, where an
/// absolute path directly under the root keeps its leading separator and a
/// separator-free path has an empty parent.
pub open spec fn parent_of(p: Seq<char>) -> Seq<char> {
    let k = last_index_of(p, '/');
    if k < 0 {
        Seq::empty()
    } else if k == 0 {
        p.subrange(0, 1)
    } else {
        p.subrange(0, k)
    }
}

/// `dir` and `name` joined with a separator, which is not doubled when `dir`
/// already ends with one, and not added when `dir` is empty.
pub open spec fn join_of(dir: Seq<char>, name: Seq<char>) -> Seq<char> {
    if dir.len() == 0 {
        name
    } else if dir[dir.len() - 1] == '/' {
        dir + name
    } else {
        dir + seq!['/'] + name
    }
}

/// Where the converted copy of `source` goes: its stem with the target
/// extension `to`, placed in `dir` when one is given and beside `source`
/// otherwise.
pub open spec fn dest_of(source: Seq<char>, to: Seq<char>, dir: Option<Seq<char>>) -> Seq<char> {
    let new_name = stem_of(file_name_of(source)) + seq!['.'] + to;
    match dir {
        Some(d) => join_of(d, new_name),
        None => join_of(parent_of(source), new_name),
    }
}

/// The file name of `path`: everything after the last separator.
pub fn file_name<'a>(path: &'a str) -> (r: &'a str)
    ensures
        r@ == file_name_of(path@),
{
    let n = path.unicode_len();
    match rfind_char(path, '/') {
        Some(i) => path.substring_char(i + 1, n),
        None => {
            proof {
                assert(path@.subrange(0, n as int) =~= path@);
            }
            path
        },
    }
}

/// The stem of the file name `name`: the part before its final dot.
pub fn file_stem<'a>(name: &'a str) -> (r: &'a str)
    ensures
        r@ == stem_of(name@),
{
    match rfind_char(name, '.') {
        Some(i) => name.substring_char(0, i),
        None => name,
    }
}

/// The extension of the file name `name`: the part after its final dot.
pub fn extension<'a>(name: &'a str) -> (r: Option<&'a str>)
    ensures
        match r {
            Some(e) => ext_of(name@) == Some(e@),
            None => ext_of(name@) is None,
        },
{
    let n = name.unicode_len();
    match rfind_char(name, '.') {
        Some(i) => Some(name.substring_char(i + 1, n)),
        None => None,
    }
}

/// The parent of `path`: everything before the last separator.
pub fn parent<'a>(path: &'a str) -> (r: &'a str)
    ensures
        r@ == parent_of(path@),
{
    match rfind_char(path, '/') {
        Some(i) if i > 0 => path.substring_char(0, i),
        Some(_) => path.substring_char(0, 1),
        None => {
            let r = "";
            proof {
                reveal_strlit("");
                assert(r@ =~= parent_of(path@));
            }
            r
        },
    }
}

/// `dir` and `name` joined with a separator.
pub fn join(dir: &str, name: &str) -> (r: String)
    ensures
        r@ == join_of(dir@, name@),
{
    let n = dir.unicode_len();
    let mut r = String::from_str(dir);
    if n > 0 {
        let last_char = dir.get_char(n - 1);
        if last_char != '/' {
            r.append("/");
            proof {
                reveal_strlit("/");
                assert("/"@ =~= seq!['/']);
            }
        }
    }
    r.append(name);
    proof {
        assert(r@ =~= join_of(dir@, name@));
    }
    r
}

/// The destination path for converting `source` to extension `to`: the
/// source's stem with `to` appended goes into `dest_dir` when one is given,
/// and beside the source otherwise.
pub fn destination_path(source: &str, to: &str, dest_dir: Option<&str>) -> (r: String)
    ensures
        r@ == dest_of(
            source@,
            to@,
            match dest_dir {
                Some(d) => Some(d@),
                None => None,
            },
        ),
{
    let name = file_name(source);
    let stem = file_stem(name);
    let mut new_name = String::from_str(stem);
    new_name.append(".");
    new_name.append(to);
    proof {
        reveal_strlit(".");
        assert("."@ =~= seq!['.']);
        assert(new_name@ =~= stem_of(file_name_of(source@)) + seq!['.'] + to@);
    }
    match dest_dir {
        Some(d) => join(d, new_name.as_str()),
        None => {
            let par = parent(source);
            join(par, new_name.as_str())
        },
    }
}

} // verus!
