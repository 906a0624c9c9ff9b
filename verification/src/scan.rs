use vstd::prelude::*;
use vstd::string::StrSliceExecFns;

verus! {

/// ASCII case folding of one character: an upper-case ASCII letter becomes
/// its lower-case form, every other character stays as it is.
pub open spec fn fold_char(c: char) -> char {
    if 65 <= c as u32 && c as u32 <= 90 {
        ((c as u32 + 32) as u8) as char
    } else {
        c
    }
}

/// ASCII case folding of a whole character sequence.
pub open spec fn fold_seq(s: Seq<char>) -> Seq<char> {
    s.map_values(|c: char| fold_char(c))
}

/// `pat` occurs in `s` beginning at offset `i`.
pub open spec fn occurs_at(s: Seq<char>, pat: Seq<char>, i: int) -> bool {
    0 <= i && i + pat.len() <= s.len() && s.subrange(i, i + pat.len() as int) == pat
}

/// `pat` occurs somewhere in `s`.
pub open spec fn occurs_in(s: Seq<char>, pat: Seq<char>) -> bool {
    exists|i: int| occurs_at(s, pat, i)
}

/// `name` occurs in `s` up to ASCII case.
pub open spec fn ci_occurs_in(s: Seq<char>, name: Seq<char>) -> bool {
    occurs_in(fold_seq(s), fold_seq(name))
}

/// ASCII case folding of one character.
fn fold_char_exec(c: char) -> (r: char)
    ensures
        r == fold_char(c),
{
    let v = c as u32;
    if 65 <= v && v <= 90 {
        ((v + 32) as u8) as char
    } else {
        c
    }
}

/// Character-by-character substring search up to ASCII case.
pub fn contains_pattern_ci(s: &str, pat: &str) -> (found: bool)
    ensures
        found == ci_occurs_in(s@, pat@),
{
    let ghost fs = fold_seq(s@);
    let ghost fp = fold_seq(pat@);
    proof {
        assert(fs.len() == s@.len());
        assert(fp.len() == pat@.len());
    }
    let n = s.unicode_len();
    let m = pat.unicode_len();
    if m > n {
        assert(forall|i: int| !occurs_at(fs, fp, i));
        return false;
    }
    if m == 0 {
        proof {
            assert(fs.subrange(0, 0) =~= fp);
            assert(occurs_at(fs, fp, 0));
        }
        return true;
    }
    let mut i: usize = 0;
    while i <= n - m
        invariant
            0 < m <= n,
            n == s@.len(),
            m == pat@.len(),
            fs == fold_seq(s@),
            fp == fold_seq(pat@),
            i <= n - m + 1,
            forall|k: int| 0 <= k < i ==> !occurs_at(fs, fp, k),
        decreases n - m + 1 - i,
    {
        let mut j: usize = 0;
        let mut live = true;
        while live && j < m
            invariant
                i + m <= n,
                j <= m,
                n == s@.len(),
                m == pat@.len(),
                fs == fold_seq(s@),
                fp == fold_seq(pat@),
                live ==> forall|t: int| 0 <= t < j ==> fs[i + t] == fp[t],
                !live ==> !occurs_at(fs, fp, i as int),
            decreases m - j + (if live { 1int } else { 0int }),
        {
            if fold_char_exec(s.get_char(i + j)) == fold_char_exec(pat.get_char(j)) {
                proof {
                    assert(fs[i + j] == fold_char(s@[i + j]));
                    assert(fp[j as int] == fold_char(pat@[j as int]));
                }
                j = j + 1;
            } else {
                proof {
                    assert(fs[i + j] == fold_char(s@[i + j]));
                    assert(fp[j as int] == fold_char(pat@[j as int]));
                    if occurs_at(fs, fp, i as int) {
                        assert(fs.subrange(i as int, i + m as int)[j as int] == fs[i + j]);
                    }
                }
                live = false;
            }
        }
        if live {
            proof {
                assert(fs.subrange(i as int, i + m as int) =~= fp);
                assert(occurs_at(fs, fp, i as int));
            }
            return true;
        }
        i = i + 1;
    }
    proof {
        assert forall|k: int| !occurs_at(fs, fp, k) by {
            if 0 <= k <= n - m {
                assert(!occurs_at(fs, fp, k));
            }
        }
    }
    false
}

/// A root is excluded when its path contains the program's own name, compared
/// up to ASCII case.
pub fn root_excluded(root: &str, name: &str) -> (b: bool)
    ensures
        b == ci_occurs_in(root@, name@),
{
    contains_pattern_ci(root, name)
}

/// One enumerated entry of a directory walk: its path, its size in bytes, and
/// whether it is a regular file.
pub struct ScanEntry {
    pub path: String,
    pub size: u64,
    pub is_file: bool,
}

/// An entry is kept when it is a regular file no larger than the bound.
pub open spec fn keep_entry(e: ScanEntry, max_size: u64) -> bool {
    e.is_file && e.size <= max_size
}

/// The paths of the kept entries, in traversal order.
pub open spec fn kept_paths(entries: Seq<ScanEntry>, max_size: u64) -> Seq<String>
    decreases entries.len(),
{
    if entries.len() == 0 {
        Seq::empty()
    } else if keep_entry(entries.last(), max_size) {
        kept_paths(entries.drop_last(), max_size).push(entries.last().path)
    } else {
        kept_paths(entries.drop_last(), max_size)
    }
}

/// `p` is the path of some enumerated entry that is a regular file within the
/// size bound.
pub open spec fn names_kept_entry(entries: Seq<ScanEntry>, max_size: u64, p: String) -> bool {
    exists|j: int|
        0 <= j < entries.len() && keep_entry(#[trigger] entries[j], max_size) && entries[j].path
            == p
}

/// Every kept path names a regular file within the size bound: nothing larger
/// ever comes out of a scan.
pub proof fn lemma_kept_paths_within_bound(entries: Seq<ScanEntry>, max_size: u64)
    ensures
        forall|k: int|
            0 <= k < kept_paths(entries, max_size).len() ==> names_kept_entry(
                entries,
                max_size,
                #[trigger] kept_paths(entries, max_size)[k],
            ),
    decreases entries.len(),
{
    if entries.len() > 0 {
        lemma_kept_paths_within_bound(entries.drop_last(), max_size);
        let kept = kept_paths(entries, max_size);
        let front = kept_paths(entries.drop_last(), max_size);
        assert forall|k: int| 0 <= k < kept.len() implies names_kept_entry(
            entries,
            max_size,
            kept[k],
        ) by {
            if k < front.len() {
                let j = choose|j: int|
                    0 <= j < entries.drop_last().len() && keep_entry(
                        #[trigger] entries.drop_last()[j],
                        max_size,
                    ) && entries.drop_last()[j].path == front[k];
                assert(entries[j] == entries.drop_last()[j]);
                assert(kept[k] == front[k]);
                assert(keep_entry(entries[j], max_size) && entries[j].path == kept[k]);
            } else {
                let j = entries.len() - 1;
                assert(entries[j] == entries.last());
                assert(kept[k] == entries.last().path);
                assert(keep_entry(entries[j], max_size) && entries[j].path == kept[k]);
            }
        }
    }
}

/// Filters one root's enumeration down to the regular files within the size
/// bound, keeping traversal order; a root whose path carries the program's
/// own name, in any ASCII casing, contributes nothing at all.
pub fn scan_root(root: &str, entries: &Vec<ScanEntry>, name: &str, max_size: u64) -> (paths: Vec<
    String,
>)
    ensures
        ci_occurs_in(root@, name@) ==> paths@ == Seq::<String>::empty(),
        !ci_occurs_in(root@, name@) ==> paths@ == kept_paths(entries@, max_size),
{
    if root_excluded(root, name) {
        return Vec::new();
    }
    let mut paths: Vec<String> = Vec::new();
    let mut i: usize = 0;
    while i < entries.len()
        invariant
            i <= entries@.len(),
            paths@ == kept_paths(entries@.take(i as int), max_size),
        decreases entries@.len() - i,
    {
        if entries[i].is_file && entries[i].size <= max_size {
            paths.push(entries[i].path.clone());
        }
        proof {
            assert(entries@.take(i + 1 as int).drop_last() =~= entries@.take(i as int));
            assert(entries@.take(i + 1 as int).last() == entries@[i as int]);
        }
        i = i + 1;
    }
    proof {
        assert(entries@.take(entries@.len() as int) =~= entries@);
    }
    paths
}

} // verus!
