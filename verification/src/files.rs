//! Ordering of directory listings for the file tree: directories come
//! first, then files; within a group, paths are ordered component by
//! component, so a path in a subdirectory sorts with its directory rather
//! than by the raw characters of the separator.

use vstd::prelude::*;
use vstd::string::*;
use std::cmp::Ordering;
use crate::text::{kept_segs, path_components, segs};

verus! {

/// One listed directory entry, reduced to what the ordering reads: whether
/// it is a directory, and its path.
pub struct FileEntry {
    pub is_dir: bool,
    pub path: String,
}

/// Strict lexicographic order on character sequences, by code point.
pub open spec fn lex_less(a: Seq<char>, b: Seq<char>) -> bool
    decreases a.len() + b.len(),
{
    if b.len() == 0 {
        false
    } else if a.len() == 0 {
        true
    } else if a[0] != b[0] {
        (a[0] as u32) < (b[0] as u32)
    } else {
        lex_less(a.skip(1), b.skip(1))
    }
}

/// Strict lexicographic order on component lists: decided by the first
/// differing component, a proper prefix sorting first.
pub open spec fn seq_lex_less(a: Seq<Seq<char>>, b: Seq<Seq<char>>) -> bool
    decreases a.len() + b.len(),
{
    if b.len() == 0 {
        false
    } else if a.len() == 0 {
        true
    } else if a[0] != b[0] {
        lex_less(a[0], b[0])
    } else {
        seq_lex_less(a.skip(1), b.skip(1))
    }
}

/// The `/`-separated components a path is ordered by.
pub open spec fn path_components_of(p: Seq<char>) -> Seq<Seq<char>> {
    kept_segs(segs(p))
}

/// The listing order: directories before files; within a group, paths
/// compare component by component.
pub open spec fn spec_dir_order(
    a_dir: bool,
    b_dir: bool,
    ap: Seq<char>,
    bp: Seq<char>,
) -> Ordering {
    if a_dir && !b_dir {
        Ordering::Less
    } else if !a_dir && b_dir {
        Ordering::Greater
    } else if path_components_of(ap) == path_components_of(bp) {
        Ordering::Equal
    } else if seq_lex_less(path_components_of(ap), path_components_of(bp)) {
        Ordering::Less
    } else {
        Ordering::Greater
    }
}

/// Equal component prefixes do not decide the list order either.
proof fn lemma_seq_lex_skip(a: Seq<Seq<char>>, b: Seq<Seq<char>>, i: int)
    requires
        0 <= i <= a.len(),
        i <= b.len(),
        forall|j: int| 0 <= j < i ==> a[j] == b[j],
    ensures
        seq_lex_less(a, b) == seq_lex_less(a.skip(i), b.skip(i)),
    decreases i,
{
    if i > 0 {
        assert(a.skip(1).skip(i - 1) =~= a.skip(i));
        assert(b.skip(1).skip(i - 1) =~= b.skip(i));
        assert(a[0] == b[0]);
        assert(forall|j: int| 0 <= j < i - 1 ==> a.skip(1)[j] == b.skip(1)[j]);
        lemma_seq_lex_skip(a.skip(1), b.skip(1), i - 1);
    } else {
        assert(a.skip(0) =~= a);
        assert(b.skip(0) =~= b);
    }
}

/// Equal prefixes do not decide the lexicographic order: it is settled by
/// what follows them.
proof fn lemma_lex_skip(a: Seq<char>, b: Seq<char>, i: int)
    requires
        0 <= i <= a.len(),
        i <= b.len(),
        forall|j: int| 0 <= j < i ==> a[j] == b[j],
    ensures
        lex_less(a, b) == lex_less(a.skip(i), b.skip(i)),
    decreases i,
{
    if i > 0 {
        assert(a.skip(1).skip(i - 1) =~= a.skip(i));
        assert(b.skip(1).skip(i - 1) =~= b.skip(i));
        assert(a[0] == b[0]);
        assert(forall|j: int| 0 <= j < i - 1 ==> a.skip(1)[j] == b.skip(1)[j]);
        lemma_lex_skip(a.skip(1), b.skip(1), i - 1);
    } else {
        assert(a.skip(0) =~= a);
        assert(b.skip(0) =~= b);
    }
}

/// Compares two strings per `lex_less`, with equality reported exactly.
fn str_cmp(a: &str, b: &str) -> (r: Ordering)
    ensures
        a@ == b@ ==> r == Ordering::Equal,
        a@ != b@ && lex_less(a@, b@) ==> r == Ordering::Less,
        a@ != b@ && !lex_less(a@, b@) ==> r == Ordering::Greater,
{
    let na = a.unicode_len();
    let nb = b.unicode_len();
    let m = if na < nb {
        na
    } else {
        nb
    };
    let mut i: usize = 0;
    while i < m
        invariant
            na == a@.len(),
            nb == b@.len(),
            m == if na < nb {
                na
            } else {
                nb
            },
            i <= m,
            forall|j: int| 0 <= j < i ==> a@[j] == b@[j],
        decreases m - i,
    {
        let ca = a.get_char(i);
        let cb = b.get_char(i);
        if ca != cb {
            proof {
                lemma_lex_skip(a@, b@, i as int);
                assert(a@.skip(i as int)[0] == a@[i as int]);
                assert(b@.skip(i as int)[0] == b@[i as int]);
                if a@ == b@ {
                    assert(a@[i as int] == b@[i as int]);
                }
            }
            if (ca as u32) < (cb as u32) {
                return Ordering::Less;
            } else {
                return Ordering::Greater;
            }
        }
        i += 1;
    }
    proof {
        lemma_lex_skip(a@, b@, m as int);
    }
    if na == nb {
        proof {
            assert(a@ =~= b@);
        }
        Ordering::Equal
    } else if na < nb {
        proof {
            assert(a@.skip(m as int).len() == 0);
            assert(b@.skip(m as int).len() > 0);
            if a@ == b@ {
                assert(a@.len() == b@.len());
            }
        }
        Ordering::Less
    } else {
        proof {
            assert(b@.skip(m as int).len() == 0);
            if a@ == b@ {
                assert(a@.len() == b@.len());
            }
        }
        Ordering::Greater
    }
}

/// Compares two paths component by component, per `seq_lex_less` over
/// their component lists, with equality reported exactly.
fn components_cmp(a: &str, b: &str) -> (r: Ordering)
    ensures
        path_components_of(a@) == path_components_of(b@) ==> r == Ordering::Equal,
        path_components_of(a@) != path_components_of(b@) && seq_lex_less(
            path_components_of(a@),
            path_components_of(b@),
        ) ==> r == Ordering::Less,
        path_components_of(a@) != path_components_of(b@) && !seq_lex_less(
            path_components_of(a@),
            path_components_of(b@),
        ) ==> r == Ordering::Greater,
{
    let ca = path_components(a);
    let cb = path_components(b);
    let ghost sa = path_components_of(a@);
    let ghost sb = path_components_of(b@);
    let na = ca.len();
    let nb = cb.len();
    let m = if na < nb {
        na
    } else {
        nb
    };
    let mut i: usize = 0;
    while i < m
        invariant
            sa == path_components_of(a@),
            sb == path_components_of(b@),
            sa == ca@.map_values(|s: String| s@),
            sb == cb@.map_values(|s: String| s@),
            na == ca@.len(),
            nb == cb@.len(),
            m == if na < nb {
                na
            } else {
                nb
            },
            i <= m,
            forall|j: int| 0 <= j < i ==> sa[j] == sb[j],
        decreases m - i,
    {
        let cmp = str_cmp(ca[i].as_str(), cb[i].as_str());
        proof {
            assert(ca@[i as int]@ == sa[i as int]);
            assert(cb@[i as int]@ == sb[i as int]);
        }
        match cmp {
            Ordering::Equal => {
                proof {
                    assert(sa[i as int] == sb[i as int]);
                }
            },
            Ordering::Less => {
                proof {
                    assert(sa[i as int] != sb[i as int]);
                    assert(lex_less(sa[i as int], sb[i as int]));
                    lemma_seq_lex_skip(sa, sb, i as int);
                    assert(sa.skip(i as int)[0] == sa[i as int]);
                    assert(sb.skip(i as int)[0] == sb[i as int]);
                    assert(seq_lex_less(sa, sb));
                    if sa == sb {
                        assert(sa[i as int] == sb[i as int]);
                    }
                }
                return Ordering::Less;
            },
            Ordering::Greater => {
                proof {
                    assert(sa[i as int] != sb[i as int]);
                    assert(!lex_less(sa[i as int], sb[i as int]));
                    lemma_seq_lex_skip(sa, sb, i as int);
                    assert(sa.skip(i as int)[0] == sa[i as int]);
                    assert(sb.skip(i as int)[0] == sb[i as int]);
                    assert(!seq_lex_less(sa, sb));
                    if sa == sb {
                        assert(sa[i as int] == sb[i as int]);
                    }
                }
                return Ordering::Greater;
            },
        }
        i += 1;
    }
    proof {
        lemma_seq_lex_skip(sa, sb, m as int);
    }
    if na == nb {
        proof {
            assert(sa =~= sb);
        }
        Ordering::Equal
    } else if na < nb {
        proof {
            assert(sa.skip(m as int).len() == 0);
            assert(sb.skip(m as int).len() > 0);
            assert(seq_lex_less(sa, sb));
            if sa == sb {
                assert(sa.len() == sb.len());
            }
        }
        Ordering::Less
    } else {
        proof {
            assert(sb.skip(m as int).len() == 0);
            assert(!seq_lex_less(sa, sb));
            if sa == sb {
                assert(sa.len() == sb.len());
            }
        }
        Ordering::Greater
    }
}

/// Orders two directory entries for display: directories come first, then
/// files; within a group, paths are compared component by component.
pub fn sort_directories_first(a: &FileEntry, b: &FileEntry) -> (r: Ordering)
    ensures
        r == spec_dir_order(a.is_dir, b.is_dir, a.path@, b.path@),
{
    if a.is_dir && !b.is_dir {
        Ordering::Less
    } else if !a.is_dir && b.is_dir {
        Ordering::Greater
    } else {
        components_cmp(a.path.as_str(), b.path.as_str())
    }
}

} // verus!
