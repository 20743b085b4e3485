//! Paths as text, on the two styles the connector runs on: Unix, where `/`
//! separates components, and Windows, where `\` does too and absolute paths
//! carry a drive or a `\\` prefix.
use vstd::prelude::*;

use crate::text::chars_of;

verus! {

/// The path conventions of the host.
#[derive(Clone, Copy, Debug, PartialEq, Eq, Structural)]
pub enum PathStyle {
    Unix,
    Windows,
}

/// Whether a character separates path components.
pub open spec fn is_sep(c: char, style: PathStyle) -> bool {
    c == '/' || (style == PathStyle::Windows && c == '\\')
}

fn sep(c: char, style: PathStyle) -> (r: bool)
    ensures
        r == is_sep(c, style),
{
    c == '/' || (style == PathStyle::Windows && c == '\\')
}

/// Whether a path is absolute, as std documents `Path::is_absolute`: on
/// Unix it starts at the root `/`; on Windows it has a prefix and a root,
/// that is a drive letter, a colon and a separator (`C:\`), or a `\\`
/// prefix (`\\server\share`, `\\?\`, `\\.\`).
pub open spec fn absolute(s: Seq<char>, style: PathStyle) -> bool {
    match style {
        PathStyle::Unix => s.len() > 0 && s[0] == '/',
        PathStyle::Windows => (s.len() >= 3 && (('a' <= s[0] && s[0] <= 'z') || ('A' <= s[0] && s[0]
            <= 'Z')) && s[1] == ':' && is_sep(s[2], style)) || (s.len() >= 2 && s[0] == '\\'
            && s[1] == '\\'),
    }
}

pub fn is_absolute(s: &str, style: PathStyle) -> (r: bool)
    ensures
        r == absolute(s@, style),
{
    let cs = chars_of(s);
    match style {
        PathStyle::Unix => cs.len() > 0 && cs[0] == '/',
        PathStyle::Windows => (cs.len() >= 3 && (('a' <= cs[0] && cs[0] <= 'z') || ('A' <= cs[0]
            && cs[0] <= 'Z')) && cs[1] == ':' && sep(cs[2], style)) || (cs.len() >= 2 && cs[0]
            == '\\' && cs[1] == '\\'),
    }
}

/// The components of a path: the non-empty pieces between separators.
pub open spec fn segments(s: Seq<char>, style: PathStyle) -> Seq<Seq<char>>
    decreases s.len(),
{
    if s.len() == 0 {
        Seq::empty()
    } else if is_sep(s[0], style) {
        segments(s.drop_first(), style)
    } else {
        let n = segment_len(s, style);
        proof {
            lemma_segment_len(s.drop_first(), style);
        }
        seq![s.take(n)] + segments(s.skip(n), style)
    }
}

/// The length of the leading run of characters that are not separators.
pub open spec fn segment_len(s: Seq<char>, style: PathStyle) -> int
    decreases s.len(),
{
    if s.len() == 0 || is_sep(s[0], style) {
        0
    } else {
        1 + segment_len(s.drop_first(), style)
    }
}

pub proof fn lemma_segment_len(s: Seq<char>, style: PathStyle)
    ensures
        0 <= segment_len(s, style) <= s.len(),
    decreases s.len(),
{
    if s.len() > 0 && !is_sep(s[0], style) {
        lemma_segment_len(s.drop_first(), style);
    }
}

proof fn lemma_segment_len_from(s: Seq<char>, style: PathStyle, i: int)
    requires
        0 <= i <= s.len(),
        forall|j: int| 0 <= j < i ==> !is_sep(#[trigger] s[j], style),
    ensures
        segment_len(s, style) == i + segment_len(s.skip(i), style),
    decreases i,
{
    if i > 0 {
        assert(s.drop_first().skip(i - 1) =~= s.skip(i));
        assert forall|j: int| 0 <= j < i - 1 implies !is_sep(#[trigger] s.drop_first()[j], style) by {
            assert(s.drop_first()[j] == s[j + 1]);
        }
        lemma_segment_len_from(s.drop_first(), style, i - 1);
    } else {
        assert(s.skip(0) =~= s);
    }
}

fn split_segments(s: &[char], style: PathStyle) -> (r: Vec<Vec<char>>)
    ensures
        r@.map_values(|w: Vec<char>| w@) == segments(s@, style),
{
    let mut out: Vec<Vec<char>> = Vec::new();
    let mut pos: usize = 0;
    assert(s@.skip(0) =~= s@);
    assert(out@.map_values(|w: Vec<char>| w@) + segments(s@, style) =~= segments(s@, style));
    while pos < s.len()
        invariant
            pos <= s@.len(),
            segments(s@, style) == out@.map_values(|w: Vec<char>| w@) + segments(
                s@.skip(pos as int),
                style,
            ),
        decreases s@.len() - pos,
    {
        let ghost rest = s@.skip(pos as int);
        if sep(s[pos], style) {
            assert(rest.drop_first() =~= s@.skip(pos + 1));
            pos = pos + 1;
        } else {
            let mut end = pos;
            while end < s.len() && !sep(s[end], style)
                invariant
                    pos <= end <= s@.len(),
                    forall|j: int| pos <= j < end ==> !is_sep(#[trigger] s@[j], style),
                decreases s@.len() - end,
            {
                end = end + 1;
            }
            proof {
                assert forall|j: int| 0 <= j < end - pos implies !is_sep(#[trigger] rest[j], style) by {
                    assert(rest[j] == s@[j + pos]);
                }
                lemma_segment_len_from(rest, style, end - pos);
                assert(rest.skip(end - pos) =~= s@.skip(end as int));
                if end < s@.len() {
                    assert(s@.skip(end as int)[0] == s@[end as int]);
                }
                assert(rest[0] == s@[pos as int]);
            }
            let mut w: Vec<char> = Vec::new();
            let mut k = pos;
            while k < end
                invariant
                    pos <= k <= end <= s@.len(),
                    w@ == s@.subrange(pos as int, k as int),
                decreases end - k,
            {
                w.push(s[k]);
                k = k + 1;
                assert(w@ =~= s@.subrange(pos as int, k as int));
            }
            let ghost before = out@;
            out.push(w);
            assert(rest.take(end - pos) =~= w@);
            assert(out@.map_values(|x: Vec<char>| x@) =~= before.map_values(|x: Vec<char>| x@).push(
                w@,
            ));
            pos = end;
        }
        assert(segments(s@, style) =~= out@.map_values(|w: Vec<char>| w@) + segments(
            s@.skip(pos as int),
            style,
        ));
    }
    assert(segments(s@.skip(pos as int), style) =~= Seq::<Seq<char>>::empty());
    assert(out@.map_values(|w: Vec<char>| w@) + Seq::<Seq<char>>::empty() =~= out@.map_values(
        |w: Vec<char>| w@,
    ));
    out
}

fn same_chars(a: &Vec<char>, b: &Vec<char>) -> (r: bool)
    ensures
        r == (a@ == b@),
{
    if a.len() != b.len() {
        return false;
    }
    let mut i: usize = 0;
    while i < a.len()
        invariant
            i <= a@.len(),
            a@.len() == b@.len(),
            forall|j: int| 0 <= j < i ==> a@[j] == b@[j],
        decreases a@.len() - i,
    {
        if a[i] != b[i] {
            return false;
        }
        i = i + 1;
    }
    assert(a@ =~= b@);
    true
}

/// Whether a path starts at a separator.
pub open spec fn rooted(s: Seq<char>, style: PathStyle) -> bool {
    s.len() > 0 && is_sep(s[0], style)
}

/// Whether `path` is `root` or lies inside it, comparing whole components
/// as `Path::starts_with` does on canonical paths: both start at a
/// separator or neither does, and the components of `root` begin those of
/// `path`.
pub open spec fn path_within(path: Seq<char>, root: Seq<char>, style: PathStyle) -> bool {
    let p = segments(path, style);
    let q = segments(root, style);
    rooted(path, style) == rooted(root, style) && q.len() <= p.len() && p.take(q.len() as int) == q
}

pub fn is_within(path: &str, root: &str, style: PathStyle) -> (r: bool)
    ensures
        r == path_within(path@, root@, style),
{
    let pc = chars_of(path);
    let rc = chars_of(root);
    let path_rooted = pc.len() > 0 && sep(pc[0], style);
    let root_rooted = rc.len() > 0 && sep(rc[0], style);
    if path_rooted != root_rooted {
        return false;
    }
    let p = split_segments(pc.as_slice(), style);
    let q = split_segments(rc.as_slice(), style);
    let ghost pv = p@.map_values(|w: Vec<char>| w@);
    let ghost qv = q@.map_values(|w: Vec<char>| w@);
    assert(pv.len() == p@.len() && qv.len() == q@.len());
    assert(pv == segments(path@, style));
    assert(qv == segments(root@, style));
    if q.len() > p.len() {
        assert(!path_within(path@, root@, style));
        return false;
    }
    let mut i: usize = 0;
    while i < q.len()
        invariant
            i <= q@.len() <= p@.len(),
            pv == p@.map_values(|w: Vec<char>| w@),
            qv == q@.map_values(|w: Vec<char>| w@),
            pv == segments(path@, style),
            qv == segments(root@, style),
            rooted(path@, style) == rooted(root@, style),
            forall|j: int| 0 <= j < i ==> pv[j] == qv[j],
        decreases q@.len() - i,
    {
        if !same_chars(&p[i], &q[i]) {
            assert(pv.take(qv.len() as int)[i as int] != qv[i as int]);
            return false;
        }
        i = i + 1;
    }
    assert(pv.take(qv.len() as int) =~= qv);
    true
}

} // verus!
