//! Character-level helpers shared by the session, shell and persistence
//! components: string equality, base names of paths, newline trimming and
//! the syntax identifier derived from a file extension.

use vstd::prelude::*;
use vstd::string::*;

verus! {

/// Character-by-character string equality, stated over the string views.
pub fn str_eq(a: &str, b: &str) -> (r: bool)
    ensures
        r == (a@ == b@),
{
    let na = a.unicode_len();
    let nb = b.unicode_len();
    if na != nb {
        proof {
            if a@ == b@ {
                assert(a@.len() == b@.len());
            }
        }
        return false;
    }
    let mut i: usize = 0;
    while i < na
        invariant
            na == a@.len(),
            nb == b@.len(),
            na == nb,
            i <= na,
            forall|j: int| 0 <= j < i ==> a@[j] == b@[j],
        decreases na - i,
    {
        if a.get_char(i) != b.get_char(i) {
            proof {
                if a@ == b@ {
                    assert(a@[i as int] == b@[i as int]);
                }
            }
            return false;
        }
        i += 1;
    }
    proof {
        assert(a@ =~= b@);
    }
    true
}

/// The characters after the last `/` of a path, with no handling of
/// trailing separators.
pub open spec fn tail_after_slash(p: Seq<char>) -> Seq<char>
    decreases p.len(),
{
    if p.len() == 0 {
        Seq::empty()
    } else if p.last() == '/' {
        Seq::empty()
    } else {
        tail_after_slash(p.drop_last()).push(p.last())
    }
}

/// Whether the path ends in a lone `.` component.
pub open spec fn ends_with_dot_component(p: Seq<char>) -> bool {
    p.len() > 0 && p.last() == '.' && (p.len() == 1 || p[p.len() - 2] == '/')
}

/// The display name of a path: its final file-name component. Trailing `/`
/// separators and trailing `.` components are ignored, as the standard
/// library's file-name lookup ignores them, so `a/b/` names `b`; a path
/// left with no component at all (`/`, `.`) has the empty name.
pub open spec fn name_of(p: Seq<char>) -> Seq<char>
    decreases p.len(),
{
    if p.len() == 0 {
        Seq::empty()
    } else if p.last() == '/' || ends_with_dot_component(p) {
        name_of(p.drop_last())
    } else {
        tail_after_slash(p)
    }
}

/// A run of non-`/` characters ending the path is its tail.
proof fn lemma_tail_after_slash_suffix(p: Seq<char>, start: int)
    requires
        0 <= start <= p.len(),
        forall|j: int| start <= j < p.len() ==> p[j] != '/',
        start == 0 || p[start - 1] == '/',
    ensures
        tail_after_slash(p) == p.subrange(start, p.len() as int),
    decreases p.len(),
{
    if p.len() == start {
        assert(p.subrange(start, p.len() as int) =~= Seq::<char>::empty());
        if start > 0 {
            assert(p.last() == '/');
        }
    } else {
        assert(p.last() != '/');
        assert(forall|j: int| start <= j < p.drop_last().len() ==> p.drop_last()[j] != '/');
        lemma_tail_after_slash_suffix(p.drop_last(), start);
        assert(p.drop_last().subrange(start, p.len() - 1) =~= p.subrange(start, p.len() - 1));
        assert(p.subrange(start, p.len() - 1).push(p.last()) =~= p.subrange(
            start,
            p.len() as int,
        ));
    }
}

/// Steps past the trailing `/` separators and `.` components that the
/// display name ignores: the returned cut keeps the name unchanged.
fn trim_name_end(path: &str, end: usize) -> (r: usize)
    requires
        end <= path@.len(),
    ensures
        r <= end,
        name_of(path@.take(end as int)) == name_of(path@.take(r as int)),
        r > 0 ==> path@[r - 1] != '/' && !ends_with_dot_component(path@.take(r as int)),
    decreases end,
{
    if end == 0 {
        return 0;
    }
    let c = path.get_char(end - 1);
    proof {
        assert(path@.take(end as int).last() == path@[end - 1]);
        assert(path@.take(end as int).drop_last() =~= path@.take(end - 1));
    }
    if c == '/' {
        trim_name_end(path, end - 1)
    } else if c == '.' && (end == 1 || path.get_char(end - 2) == '/') {
        proof {
            assert(ends_with_dot_component(path@.take(end as int)));
        }
        trim_name_end(path, end - 1)
    } else {
        proof {
            assert(!ends_with_dot_component(path@.take(end as int)));
        }
        end
    }
}

/// Computes the display name of a path, per `name_of`.
pub fn base_name(path: &str) -> (r: String)
    ensures
        r@ == name_of(path@),
{
    let n = path.unicode_len();
    proof {
        assert(path@.take(n as int) =~= path@);
    }
    let end = trim_name_end(path, n);
    let ghost q = path@.take(end as int);
    proof {
        if end > 0 {
            assert(q.last() == path@[end - 1]);
            assert(name_of(q) == tail_after_slash(q));
        } else {
            assert(q =~= Seq::<char>::empty());
            assert(tail_after_slash(q) == name_of(q));
        }
    }
    let mut start: usize = end;
    while start > 0 && path.get_char(start - 1) != '/'
        invariant
            n == path@.len(),
            start <= end <= n,
            q == path@.take(end as int),
            forall|j: int| start <= j < end ==> path@[j] != '/',
        decreases start,
    {
        start -= 1;
    }
    proof {
        assert(forall|j: int| start <= j < q.len() ==> q[j] != '/');
        lemma_tail_after_slash_suffix(q, start as int);
        assert(q.subrange(start as int, q.len() as int) =~= path@.subrange(
            start as int,
            end as int,
        ));
        assert(name_of(path@) == path@.subrange(start as int, end as int));
    }
    String::from_str(path.substring_char(start, end))
}

/// Whether a file name carries an extension separator.
pub open spec fn has_dot(name: Seq<char>) -> bool
    decreases name.len(),
{
    if name.len() == 0 {
        false
    } else {
        name.last() == '.' || has_dot(name.drop_last())
    }
}

/// The characters after the last `.` of a file name.
pub open spec fn ext_tail(name: Seq<char>) -> Seq<char>
    decreases name.len(),
{
    if name.len() == 0 {
        Seq::empty()
    } else if name.last() == '.' {
        Seq::empty()
    } else {
        ext_tail(name.drop_last()).push(name.last())
    }
}

/// The language identifier a file name implies: its extension, or `rs` for
/// a name without one (the default buffer language).
pub open spec fn language_of(name: Seq<char>) -> Seq<char> {
    if has_dot(name) {
        ext_tail(name)
    } else {
        "rs"@
    }
}

/// Derives the language identifier from a file name, per `language_of`.
pub fn derive_language(name: &str) -> (r: String)
    ensures
        r@ == language_of(name@),
{
    let n = name.unicode_len();
    let mut found = false;
    let mut start: usize = 0;
    let mut i: usize = 0;
    while i < n
        invariant
            n == name@.len(),
            i <= n,
            start <= i,
            found == has_dot(name@.take(i as int)),
            found ==> ext_tail(name@.take(i as int)) == name@.subrange(
                start as int,
                i as int,
            ),
        decreases n - i,
    {
        proof {
            assert(name@.take(i + 1).drop_last() =~= name@.take(i as int));
            assert(name@.take(i + 1).last() == name@[i as int]);
        }
        if name.get_char(i) == '.' {
            found = true;
            start = i + 1;
            proof {
                assert(ext_tail(name@.take(i + 1)) =~= name@.subrange(i + 1, i + 1));
            }
        } else {
            proof {
                if found {
                    assert(ext_tail(name@.take(i + 1)) =~= name@.subrange(
                        start as int,
                        i + 1,
                    ));
                }
            }
        }
        i += 1;
    }
    proof {
        assert(name@.take(n as int) =~= name@);
    }
    if found {
        String::from_str(name.substring_char(start, n))
    } else {
        String::from_str("rs")
    }
}

/// A captured output stream with exactly one trailing newline removed.
pub open spec fn trim_one_newline(s: Seq<char>) -> Seq<char> {
    if s.len() > 0 && s.last() == '\n' {
        s.drop_last()
    } else {
        s
    }
}

/// Removes exactly one trailing newline, if present.
pub fn trim_trailing_newline(s: &str) -> (r: String)
    ensures
        r@ == trim_one_newline(s@),
{
    let n = s.unicode_len();
    if n > 0 && s.get_char(n - 1) == '\n' {
        proof {
            assert(s@.subrange(0, n - 1) =~= s@.drop_last());
        }
        String::from_str(s.substring_char(0, n - 1))
    } else {
        String::from_str(s)
    }
}

/// How many trailing path components a formatted path shows.
pub const DISPLAY_PATH_DEPTH: usize = 3;

/// The raw `/`-separated components of a path, in order; separators between
/// empty components are kept, so `a//b` yields an empty middle component.
pub open spec fn segs(p: Seq<char>) -> Seq<Seq<char>>
    decreases p.len(),
{
    if p.len() == 0 {
        seq![Seq::<char>::empty()]
    } else if p.last() == '/' {
        segs(p.drop_last()).push(Seq::<char>::empty())
    } else {
        let s = segs(p.drop_last());
        s.update(s.len() - 1, s.last().push(p.last()))
    }
}

/// Whether a path component is shown: empty components (leading `/`, double
/// separators) and the current-directory component `.` are dropped.
pub open spec fn keep_seg(s: Seq<char>) -> bool {
    s.len() > 0 && s != seq!['.']
}

/// The shown components of a component list, in order.
pub open spec fn kept_segs(ss: Seq<Seq<char>>) -> Seq<Seq<char>>
    decreases ss.len(),
{
    if ss.len() == 0 {
        Seq::empty()
    } else {
        kept_segs(ss.drop_last()) + if keep_seg(ss.last()) {
            seq![ss.last()]
        } else {
            Seq::<Seq<char>>::empty()
        }
    }
}

/// Components joined with `/`.
pub open spec fn join_slash(ss: Seq<Seq<char>>) -> Seq<char>
    decreases ss.len(),
{
    if ss.len() == 0 {
        Seq::empty()
    } else if ss.len() == 1 {
        ss[0]
    } else {
        join_slash(ss.drop_last()) + seq!['/'] + ss.last()
    }
}

/// The display form of a directory path: its last `DISPLAY_PATH_DEPTH`
/// shown components joined with `/`, ending in `>`.
pub open spec fn formatted_path(p: Seq<char>) -> Seq<char> {
    let ks = kept_segs(segs(p));
    let shown = if ks.len() > DISPLAY_PATH_DEPTH {
        ks.skip(ks.len() - DISPLAY_PATH_DEPTH as int)
    } else {
        ks
    };
    join_slash(shown) + seq!['>']
}

/// The component list of a path is never empty.
pub proof fn lemma_segs_nonempty(p: Seq<char>)
    ensures
        segs(p).len() >= 1,
    decreases p.len(),
{
    if p.len() > 0 {
        lemma_segs_nonempty(p.drop_last());
    }
}

/// The shown (non-empty, non-`.`) components of a path, in order.
pub fn path_components(path: &str) -> (r: Vec<String>)
    ensures
        r@.map_values(|s: String| s@) == kept_segs(segs(path@)),
{
    let n = path.unicode_len();
    let mut kept: Vec<String> = Vec::new();
    let mut start: usize = 0;
    let mut i: usize = 0;
    proof {
        assert(segs(path@.take(0)).last() =~= path@.subrange(0, 0));
        assert(kept_segs(segs(path@.take(0)).drop_last()) =~= kept@.map_values(
            |s: String| s@,
        ));
    }
    while i < n
        invariant
            n == path@.len(),
            i <= n,
            start <= i,
            segs(path@.take(i as int)).len() >= 1,
            segs(path@.take(i as int)).last() == path@.subrange(start as int, i as int),
            kept_segs(segs(path@.take(i as int)).drop_last()) == kept@.map_values(
                |s: String| s@,
            ),
        decreases n - i,
    {
        proof {
            assert(path@.take(i + 1).drop_last() =~= path@.take(i as int));
            assert(path@.take(i + 1).last() == path@[i as int]);
            lemma_segs_nonempty(path@.take(i + 1));
        }
        if path.get_char(i) == '/' {
            let seg = path.substring_char(start, i);
            proof {
                reveal_strlit(".");
                assert("."@ =~= seq!['.']);
                let s_pre = segs(path@.take(i as int));
                let s_post = segs(path@.take(i + 1));
                assert(s_post == s_pre.push(Seq::<char>::empty()));
                assert(s_post.drop_last() =~= s_pre);
            }
            if i > start && !str_eq(seg, ".") {
                kept.push(String::from_str(seg));
                proof {
                    let s_pre = segs(path@.take(i as int));
                    assert(keep_seg(s_pre.last()));
                    assert(kept_segs(s_pre) =~= kept@.map_values(|s: String| s@));
                }
            } else {
                proof {
                    let s_pre = segs(path@.take(i as int));
                    assert(!keep_seg(s_pre.last()));
                    assert(kept_segs(s_pre) =~= kept@.map_values(|s: String| s@));
                }
            }
            start = i + 1;
            proof {
                assert(segs(path@.take(i + 1)).last() =~= path@.subrange(i + 1, i + 1));
            }
        } else {
            proof {
                let s_pre = segs(path@.take(i as int));
                let s_post = segs(path@.take(i + 1));
                assert(s_post == s_pre.update(
                    s_pre.len() - 1,
                    s_pre.last().push(path@[i as int]),
                ));
                assert(s_post.drop_last() =~= s_pre.drop_last());
                assert(s_post.last() =~= path@.subrange(start as int, i + 1));
            }
        }
        i += 1;
    }
    proof {
        assert(path@.take(n as int) =~= path@);
    }
    let seg = path.substring_char(start, n);
    let ghost all = segs(path@);
    proof {
        lemma_segs_nonempty(path@);
        reveal_strlit(".");
        assert("."@ =~= seq!['.']);
        assert(all.last() == seg@);
    }
    if n > start && !str_eq(seg, ".") {
        kept.push(String::from_str(seg));
        proof {
            assert(keep_seg(all.last()));
            assert(kept_segs(all) =~= kept@.map_values(|s: String| s@));
        }
    } else {
        proof {
            assert(!keep_seg(all.last()));
            assert(kept_segs(all) =~= kept@.map_values(|s: String| s@));
        }
    }
    kept
}

/// Renders a directory path for display, per `formatted_path`.
pub fn format_path(path: &str) -> (r: String)
    ensures
        r@ == formatted_path(path@),
{
    let kept = path_components(path);
    let ghost ks = kept_segs(segs(path@));
    let m = kept.len();
    let from: usize = if m > DISPLAY_PATH_DEPTH {
        m - DISPLAY_PATH_DEPTH
    } else {
        0
    };
    let ghost shown = if ks.len() > DISPLAY_PATH_DEPTH {
        ks.skip(ks.len() - DISPLAY_PATH_DEPTH as int)
    } else {
        ks
    };
    proof {
        assert(ks.len() == kept@.len());
        assert(shown =~= ks.subrange(from as int, m as int));
    }
    let mut out = String::new();
    let mut j: usize = from;
    while j < m
        invariant
            from <= j <= m,
            m == kept@.len(),
            ks == kept@.map_values(|s: String| s@),
            shown =~= ks.subrange(from as int, m as int),
            out@ == join_slash(shown.take(j - from)),
        decreases m - j,
    {
        proof {
            assert(shown.take(j - from + 1).drop_last() =~= shown.take(j - from));
            assert(shown.take(j - from + 1).last() == ks[j as int]);
            reveal_strlit("/");
            assert("/"@ =~= seq!['/']);
        }
        if j > from {
            out.append("/");
        } else {
            proof {
                assert(join_slash(shown.take(1)) == shown[0]);
            }
        }
        out.append(kept[j].as_str());
        j += 1;
    }
    proof {
        assert(shown.take(m - from) =~= shown);
        reveal_strlit(">");
        assert(">"@ =~= seq!['>']);
    }
    out.append(">");
    out
}

/// A syntax identifier for the highlighting layer.
#[derive(PartialEq, Eq, Structural, Clone, Copy, Debug)]
pub enum Syntax {
    Python,
    Rust,
    Shell,
}

/// The syntax chosen for a language identifier.
pub open spec fn spec_to_syntax(language: Seq<char>) -> Syntax {
    if language == "py"@ {
        Syntax::Python
    } else if language == "rs"@ {
        Syntax::Rust
    } else {
        Syntax::Shell
    }
}

/// Maps a language identifier (file extension) to its syntax: `py` and `rs`
/// are recognised, anything else falls back to shell highlighting.
pub fn to_syntax(language: &str) -> (r: Syntax)
    ensures
        r == spec_to_syntax(language@),
{
    if str_eq(language, "py") {
        Syntax::Python
    } else if str_eq(language, "rs") {
        Syntax::Rust
    } else {
        Syntax::Shell
    }
}

} // verus!
