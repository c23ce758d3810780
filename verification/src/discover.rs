//! File discovery over a directory tree.
//!
//! The tree is given as a value: a [`FsEntry`] is either a regular file or
//! a directory with its entries in listing order. [`discover`] walks the
//! trees depth-first and returns exactly the paths of the regular files
//! whose extension is in the requested set, in traversal order; files
//! without an extension are never returned, and the results of several
//! roots are concatenated in the order the roots were given.

use crate::paths::{ext_of, file_name_of, join, join_of};
use vstd::prelude::*;
use vstd::string::*;

verus! {

/// One node of a directory tree: a regular file, or a directory with its
/// entries in the order the listing yields them.
pub enum FsEntry {
    File { name: String },
    Dir { name: String, entries: Vec<FsEntry> },
}

/// The character sequences behind a sequence of strings.
pub open spec fn str_views(ss: Seq<String>) -> Seq<Seq<char>> {
    Seq::new(ss.len(), |i: int| ss[i]@)
}

/// Whether a file name's extension is a member of the filter set. A name
/// without an extension matches nothing.
pub open spec fn ext_matches(name: Seq<char>, exts: Seq<Seq<char>>) -> bool {
    match ext_of(name) {
        Some(e) => exts.contains(e),
        None => false,
    }
}

/// The matching file paths under `t`, depth-first, when `t` sits in the
/// directory `dir`.
pub open spec fn matching(t: FsEntry, dir: Seq<char>, exts: Seq<Seq<char>>) -> Seq<Seq<char>>
    decreases t, 0int,
{
    match t {
        FsEntry::File { name } => if ext_matches(name@, exts) {
            seq![join_of(dir, name@)]
        } else {
            Seq::empty()
        },
        FsEntry::Dir { name, entries } => matching_list(entries@, join_of(dir, name@), exts, 0),
    }
}

/// The matching file paths under the entries of `ts` from index `i` on,
/// concatenated in order.
pub open spec fn matching_list(
    ts: Seq<FsEntry>,
    dir: Seq<char>,
    exts: Seq<Seq<char>>,
    i: int,
) -> Seq<Seq<char>>
    decreases ts, ts.len() - i,
{
    if i < 0 || i >= ts.len() {
        Seq::empty()
    } else {
        matching(ts[i], dir, exts) + matching_list(ts, dir, exts, i + 1)
    }
}

/// The matching file paths under a sequence of roots, in order. A root is
/// named by its full path, so the surrounding directory is empty.
pub open spec fn matching_roots(ts: Seq<FsEntry>, exts: Seq<Seq<char>>) -> Seq<Seq<char>> {
    matching_list(ts, Seq::empty(), exts, 0)
}

/// A well-formed tree node: every name is nonempty and free of the
/// separator, as file names on a real filesystem are.
pub open spec fn wf_entry(t: FsEntry) -> bool
    decreases t, 0int,
{
    match t {
        FsEntry::File { name } => name@.len() > 0 && no_sep(name@),
        FsEntry::Dir { name, entries } => name@.len() > 0 && no_sep(name@) && wf_list(
            entries@,
            0,
        ),
    }
}

/// Well-formedness of every entry of `ts` from index `i` on.
pub open spec fn wf_list(ts: Seq<FsEntry>, i: int) -> bool
    decreases ts, ts.len() - i,
{
    if i < 0 || i >= ts.len() {
        true
    } else {
        wf_entry(ts[i]) && wf_list(ts, i + 1)
    }
}

/// Whether `s` is free of the path separator.
pub open spec fn no_sep(s: Seq<char>) -> bool {
    forall|k: int| 0 <= k < s.len() ==> s[k] != '/'
}

/// Every path a well-formed tree contributes has a nonempty file name
/// whose extension is in the filter set: discovery returns only regular
/// files that carry a requested extension.
pub proof fn lemma_matching_only_matches(t: FsEntry, dir: Seq<char>, exts: Seq<Seq<char>>)
    requires
        wf_entry(t),
    ensures
        forall|j: int|
            0 <= j < matching(t, dir, exts).len() ==> file_name_of(
                #[trigger] matching(t, dir, exts)[j],
            ).len() > 0 && ext_matches(file_name_of(matching(t, dir, exts)[j]), exts),
    decreases t, 0int,
{
    match t {
        FsEntry::File { name } => {
            if ext_matches(name@, exts) {
                crate::paths::lemma_file_name_of_join(dir, name@);
                assert forall|j: int| 0 <= j < matching(t, dir, exts).len() implies file_name_of(
                    #[trigger] matching(t, dir, exts)[j],
                ).len() > 0 && ext_matches(file_name_of(matching(t, dir, exts)[j]), exts) by {
                    assert(matching(t, dir, exts)[j] == join_of(dir, name@));
                    assert(file_name_of(join_of(dir, name@)) == name@);
                }
            }
        },
        FsEntry::Dir { name, entries } => {
            lemma_matching_list_only_matches(entries@, join_of(dir, name@), exts, 0);
            let below = matching_list(entries@, join_of(dir, name@), exts, 0);
            assert(matching(t, dir, exts) == below);
            assert forall|j: int| 0 <= j < matching(t, dir, exts).len() implies file_name_of(
                #[trigger] matching(t, dir, exts)[j],
            ).len() > 0 && ext_matches(file_name_of(matching(t, dir, exts)[j]), exts) by {
                assert(matching(t, dir, exts)[j] == below[j]);
                assert(file_name_of(below[j]).len() > 0 && ext_matches(
                    file_name_of(below[j]),
                    exts,
                ));
            }
        },
    }
}

/// As [`lemma_matching_only_matches`], over the entries of `ts` from `i`
/// on.
pub proof fn lemma_matching_list_only_matches(
    ts: Seq<FsEntry>,
    dir: Seq<char>,
    exts: Seq<Seq<char>>,
    i: int,
)
    requires
        wf_list(ts, i),
    ensures
        forall|j: int|
            0 <= j < matching_list(ts, dir, exts, i).len() ==> file_name_of(
                #[trigger] matching_list(ts, dir, exts, i)[j],
            ).len() > 0 && ext_matches(file_name_of(matching_list(ts, dir, exts, i)[j]), exts),
    decreases ts, ts.len() - i,
{
    if 0 <= i < ts.len() {
        lemma_matching_only_matches(ts[i], dir, exts);
        lemma_matching_list_only_matches(ts, dir, exts, i + 1);
        let piece = matching(ts[i], dir, exts);
        let rest = matching_list(ts, dir, exts, i + 1);
        assert forall|j: int| 0 <= j < matching_list(ts, dir, exts, i).len() implies file_name_of(
            #[trigger] matching_list(ts, dir, exts, i)[j],
        ).len() > 0 && ext_matches(file_name_of(matching_list(ts, dir, exts, i)[j]), exts) by {
            if j < piece.len() {
                assert(matching_list(ts, dir, exts, i)[j] == piece[j]);
            } else {
                assert(matching_list(ts, dir, exts, i)[j] == rest[j - piece.len()]);
            }
        }
    }
}

/// Discovery returns only regular files with a requested extension: every
/// path in [`matching_roots`] of well-formed trees has a nonempty file
/// name whose extension is in the filter set.
pub proof fn lemma_discover_only_matches(ts: Seq<FsEntry>, exts: Seq<Seq<char>>)
    requires
        wf_list(ts, 0),
    ensures
        forall|j: int|
            0 <= j < matching_roots(ts, exts).len() ==> file_name_of(
                #[trigger] matching_roots(ts, exts)[j],
            ).len() > 0 && ext_matches(file_name_of(matching_roots(ts, exts)[j]), exts),
{
    lemma_matching_list_only_matches(ts, Seq::empty(), exts, 0);
}

/// Character-by-character string equality.
pub fn str_eq(a: &str, b: &str) -> (r: bool)
    ensures
        r == (a@ == b@),
{
    let na = a.unicode_len();
    let nb = b.unicode_len();
    if na != nb {
        return false;
    }
    let mut i: usize = 0;
    while i < na
        invariant
            i <= na,
            na == a@.len(),
            nb == b@.len(),
            na == nb,
            forall|k: int| 0 <= k < i ==> a@[k] == b@[k],
        decreases na - i,
    {
        let ca = a.get_char(i);
        let cb = b.get_char(i);
        if ca != cb {
            return false;
        }
        i = i + 1;
    }
    proof {
        assert(a@ =~= b@);
    }
    true
}

/// Whether `e` is one of the extensions in `exts`.
pub fn contains_str(exts: &Vec<String>, e: &str) -> (r: bool)
    ensures
        r == str_views(exts@).contains(e@),
{
    let n = exts.len();
    let mut j: usize = 0;
    while j < n
        invariant
            j <= n,
            n == exts@.len(),
            forall|k: int| 0 <= k < j ==> exts@[k]@ != e@,
        decreases n - j,
    {
        if str_eq(exts[j].as_str(), e) {
            proof {
                assert(str_views(exts@)[j as int] == e@);
            }
            return true;
        }
        j = j + 1;
    }
    proof {
        assert forall|k: int| 0 <= k < str_views(exts@).len() implies str_views(exts@)[k]
            != e@ by {}
    }
    false
}

/// Appends to `out` the matching file paths under `t`, depth-first.
fn walk(t: &FsEntry, dir: &str, exts: &Vec<String>, out: &mut Vec<String>)
    ensures
        final(out)@.len() == old(out)@.len() + matching(*t, dir@, str_views(exts@)).len(),
        forall|q: int| 0 <= q < old(out)@.len() ==> final(out)@[q] == old(out)@[q],
        forall|q: int|
            old(out)@.len() <= q < final(out)@.len() ==> final(out)@[q]@ == matching(
                *t,
                dir@,
                str_views(exts@),
            )[q - old(out)@.len()],
    decreases *t,
{
    match t {
        FsEntry::File { name } => {
            match crate::paths::extension(name.as_str()) {
                Some(e) => {
                    if contains_str(exts, e) {
                        let p = join(dir, name.as_str());
                        out.push(p);
                    }
                },
                None => {},
            }
        },
        FsEntry::Dir { name, entries } => {
            let d = join(dir, name.as_str());
            let ghost ts = entries@;
            let ghost ex = str_views(exts@);
            let ghost dv = d@;
            let ghost base = out@.len() as int;
            let ghost full = matching_list(ts, dv, ex, 0);
            let n = entries.len();
            let mut k: usize = 0;
            proof {
                assert(full.skip(0) =~= full);
            }
            while k < n
                invariant
                    k <= n,
                    n == ts.len(),
                    *t is Dir,
                    t->Dir_entries == *entries,
                    ts == entries@,
                    dv == d@,
                    ex == str_views(exts@),
                    full == matching_list(ts, dv, ex, 0),
                    0 <= base <= out@.len(),
                    out@.len() - base <= full.len(),
                    matching_list(ts, dv, ex, k as int) == full.skip(out@.len() - base),
                    forall|q: int| 0 <= q < base ==> (#[trigger] out@[q]) == old(out)@[q],
                    forall|q: int|
                        base <= q < out@.len() ==> (#[trigger] out@[q])@ == full[q - base],
                decreases n - k,
            {
                let ghost snap = out@;
                let ghost delta = out@.len() - base;
                let ghost piece = matching(ts[k as int], dv, ex);
                let ghost rest = matching_list(ts, dv, ex, k as int + 1);
                proof {
                    assert(t->Dir_entries == *entries);
                    assert(decreases_to!(*t => t->Dir_entries));
                    assert(decreases_to!(t->Dir_entries => t->Dir_entries@[k as int]));
                    assert(decreases_to!(*t => t->Dir_entries@[k as int]));
                }
                walk(&entries[k], d.as_str(), exts, out);
                proof {
                    assert(matching_list(ts, dv, ex, k as int) == piece + rest);
                    assert(full.skip(delta) == piece + rest);
                    assert(full.skip(delta).len() == full.len() - delta);
                    assert(out@.len() - base == delta + piece.len());
                    assert forall|q: int| base <= q < base + delta implies out@[q]@ == full[q
                        - base] by {
                        assert(q < snap.len());
                        assert(out@[q] == snap[q]);
                        assert(snap[q]@ == full[q - base]);
                    }
                    assert forall|q: int| base + delta <= q < out@.len() implies out@[q]@
                        == full[q - base] by {
                        assert(out@[q]@ == piece[q - base - delta]);
                        assert(full.skip(delta)[q - base - delta] == piece[q - base - delta]);
                        assert(full.skip(delta)[q - base - delta] == full[q - base]);
                    }
                    let ghost delta2 = out@.len() - base;
                    assert(rest.len() == full.skip(delta2).len());
                    assert forall|j: int| 0 <= j < rest.len() implies rest[j] == full.skip(
                        delta2,
                    )[j] by {
                        assert(rest[j] == full.skip(delta)[piece.len() + j]);
                        assert(full.skip(delta)[piece.len() + j] == full[delta + piece.len()
                            + j]);
                        assert(full.skip(delta2)[j] == full[delta2 + j]);
                    }
                    assert(rest =~= full.skip(delta2));
                }
                k = k + 1;
            }
            proof {
                assert(matching_list(ts, dv, ex, n as int).len() == 0);
            }
        },
    }
}

/// Walks every root depth-first and returns exactly the regular files whose
/// extension is in `extensions`, in traversal order, one root's results
/// after the other's.
pub fn discover(roots: &Vec<FsEntry>, extensions: &Vec<String>) -> (found: Vec<String>)
    ensures
        found@.len() == matching_roots(roots@, str_views(extensions@)).len(),
        forall|k: int|
            0 <= k < found@.len() ==> found@[k]@ == matching_roots(
                roots@,
                str_views(extensions@),
            )[k],
{
    let ghost ts = roots@;
    let ghost ex = str_views(extensions@);
    let ghost full = matching_list(ts, Seq::empty(), ex, 0);
    let empty_dir = "";
    proof {
        reveal_strlit("");
        assert(empty_dir@ =~= Seq::<char>::empty());
        assert(full.skip(0) =~= full);
    }
    let mut found: Vec<String> = Vec::new();
    let n = roots.len();
    let mut k: usize = 0;
    while k < n
        invariant
            k <= n,
            n == ts.len(),
            ts == roots@,
            ex == str_views(extensions@),
            empty_dir@ == Seq::<char>::empty(),
            full == matching_list(ts, Seq::empty(), ex, 0),
            found@.len() <= full.len(),
            matching_list(ts, Seq::empty(), ex, k as int) == full.skip(found@.len() as int),
            forall|q: int| 0 <= q < found@.len() ==> found@[q]@ == full[q],
        decreases n - k,
    {
        let ghost delta = found@.len() as int;
        let ghost piece = matching(ts[k as int], Seq::empty(), ex);
        let ghost rest = matching_list(ts, Seq::empty(), ex, k as int + 1);
        walk(&roots[k], empty_dir, extensions, &mut found);
        proof {
            assert(matching_list(ts, Seq::empty(), ex, k as int) == piece + rest);
            assert(full.skip(delta) == piece + rest);
            assert(full.skip(delta).len() == full.len() - delta);
            assert(found@.len() == delta + piece.len());
            assert forall|q: int| 0 <= q < found@.len() implies found@[q]@ == full[q] by {
                if q >= delta {
                    assert(found@[q]@ == piece[q - delta]);
                    assert(full.skip(delta)[q - delta] == piece[q - delta]);
                    assert(full.skip(delta)[q - delta] == full[q]);
                }
            }
            let ghost delta2 = found@.len() as int;
            assert(rest.len() == full.skip(delta2).len());
            assert forall|j: int| 0 <= j < rest.len() implies rest[j] == full.skip(delta2)[j] by {
                assert(rest[j] == full.skip(delta)[piece.len() + j]);
                assert(full.skip(delta)[piece.len() + j] == full[delta + piece.len() + j]);
                assert(full.skip(delta2)[j] == full[delta2 + j]);
            }
            assert(rest =~= full.skip(delta2));
        }
        k = k + 1;
    }
    proof {
        assert(matching_list(ts, Seq::empty(), ex, n as int).len() == 0);
    }
    found
}

} // verus!
