use vstd::prelude::*;
use crate::text::chars_of;

verus! {

/// The path starts at the root.
pub open spec fn has_root(p: Seq<char>) -> bool {
    p.len() > 0 && p[0] == '/'
}

/// The path starts with a `.` component (`.` alone, or `./...`), which only
/// counts when the path has no root.
pub open spec fn leading_cur_dir(p: Seq<char>) -> bool {
    !has_root(p) && p.len() > 0 && p[0] == '.' && (p.len() == 1 || p[1] == '/')
}

/// Ends a segment: empty and `.` segments are not components.
pub open spec fn close_segment(done: Seq<Seq<char>>, seg: Seq<char>) -> Seq<Seq<char>> {
    if seg.len() == 0 || seg == seq!['.'] {
        done
    } else {
        done.push(seg)
    }
}

/// The segments of `p` closed so far, and the one still open.
pub open spec fn scan_path(p: Seq<char>) -> (Seq<Seq<char>>, Seq<char>)
    decreases p.len(),
{
    if p.len() == 0 {
        (Seq::empty(), Seq::empty())
    } else {
        let (done, seg) = scan_path(p.drop_last());
        if p.last() == '/' {
            (close_segment(done, seg), Seq::empty())
        } else {
            (done, seg.push(p.last()))
        }
    }
}

/// The named components of a path: its segments between separators, with
/// empty and `.` segments left out.
pub open spec fn named_components(p: Seq<char>) -> Seq<Seq<char>> {
    close_segment(scan_path(p).0, scan_path(p).1)
}

/// Two paths are equal as paths: the same root, the same leading `.`, and the
/// same named components. So `a//b`, `a/b/`, `a/./b` and `a/b` are one path,
/// while `./a` and `a` are not.
pub open spec fn same_path(a: Seq<char>, b: Seq<char>) -> bool {
    &&& has_root(a) == has_root(b)
    &&& leading_cur_dir(a) == leading_cur_dir(b)
    &&& named_components(a) == named_components(b)
}

pub open spec fn views_of_parts(v: Seq<Vec<char>>) -> Seq<Seq<char>> {
    v.map_values(|s: Vec<char>| s@)
}

fn close_part(done: &mut Vec<Vec<char>>, seg: Vec<char>)
    ensures
        views_of_parts(final(done)@) == close_segment(views_of_parts(old(done)@), seg@),
{
    if seg.len() == 0 {
        return;
    }
    if seg.len() == 1 && seg[0] == '.' {
        assert(seg@ =~= seq!['.']);
        return;
    }
    let ghost old_done = done@;
    done.push(seg);
    proof {
        assert(views_of_parts(done@) =~= views_of_parts(old_done).push(seg@));
    }
}

/// The named components of a path, in order.
pub fn components(p: &str) -> (r: Vec<Vec<char>>)
    ensures
        views_of_parts(r@) == named_components(p@),
{
    let cs = chars_of(p);
    let mut done: Vec<Vec<char>> = Vec::new();
    let mut seg: Vec<char> = Vec::new();
    let mut i: usize = 0;
    while i < cs.len()
        invariant
            i <= cs.len(),
            cs@ == p@,
            scan_path(cs@.take(i as int)) == (views_of_parts(done@), seg@),
        decreases cs.len() - i,
    {
        proof {
            assert(cs@.take(i + 1).drop_last() =~= cs@.take(i as int));
            assert(cs@.take(i + 1).last() == cs@[i as int]);
        }
        if cs[i] == '/' {
            let closed = seg;
            seg = Vec::new();
            close_part(&mut done, closed);
        } else {
            seg.push(cs[i]);
        }
        i = i + 1;
    }
    assert(cs@.take(i as int) =~= p@);
    close_part(&mut done, seg);
    done
}

fn same_chars(a: &Vec<char>, b: &Vec<char>) -> (r: bool)
    ensures
        r == (a@ == b@),
{
    if a.len() != b.len() {
        return false;
    }
    let mut k: usize = 0;
    while k < a.len()
        invariant
            a.len() == b.len(),
            k <= a.len(),
            forall|l: int| 0 <= l < k ==> a@[l] == b@[l],
        decreases a.len() - k,
    {
        if a[k] != b[k] {
            return false;
        }
        k = k + 1;
    }
    assert(a@ =~= b@);
    true
}

fn same_parts(a: &Vec<Vec<char>>, b: &Vec<Vec<char>>) -> (r: bool)
    ensures
        r == (views_of_parts(a@) == views_of_parts(b@)),
{
    if a.len() != b.len() {
        assert(views_of_parts(a@).len() != views_of_parts(b@).len());
        return false;
    }
    let mut k: usize = 0;
    while k < a.len()
        invariant
            a.len() == b.len(),
            k <= a.len(),
            forall|l: int| 0 <= l < k ==> a@[l]@ == b@[l]@,
        decreases a.len() - k,
    {
        if !same_chars(&a[k], &b[k]) {
            assert(views_of_parts(a@)[k as int] != views_of_parts(b@)[k as int]);
            return false;
        }
        k = k + 1;
    }
    assert(views_of_parts(a@) =~= views_of_parts(b@));
    true
}

/// Whether two paths are equal as paths (see `same_path`).
pub fn paths_equal(a: &str, b: &str) -> (r: bool)
    ensures
        r == same_path(a@, b@),
{
    let ca = chars_of(a);
    let cb = chars_of(b);
    let root_a = ca.len() > 0 && ca[0] == '/';
    let root_b = cb.len() > 0 && cb[0] == '/';
    let dot_a = !root_a && ca.len() > 0 && ca[0] == '.' && (ca.len() == 1 || ca[1] == '/');
    let dot_b = !root_b && cb.len() > 0 && cb[0] == '.' && (cb.len() == 1 || cb[1] == '/');
    if root_a != root_b || dot_a != dot_b {
        return false;
    }
    let pa = components(a);
    let pb = components(b);
    same_parts(&pa, &pb)
}

} // verus!
