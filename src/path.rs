use vstd::prelude::*;
use crate::error::Error;
use crate::text::{join_slash, lemma_split_on_push, split_on, split_text};

verus! {

/// A component that a path walk keeps: not empty and not `.`.
pub open spec fn kept_part(p: Seq<char>) -> bool {
    p.len() > 0 && p != seq!['.']
}

pub open spec fn kept(segs: Seq<Seq<char>>) -> Seq<Seq<char>>
    decreases segs.len(),
{
    if segs.len() == 0 {
        seq![]
    } else if kept_part(segs.last()) {
        kept(segs.drop_last()).push(segs.last())
    } else {
        kept(segs.drop_last())
    }
}

pub(crate) fn is_kept_part(p: &String) -> (r: bool)
    ensures
        r == kept_part(p@),
{
    proof {
        reveal_strlit(".");
    }
    let dot = String::from_str(".");
    assert(dot@ =~= seq!['.']);
    !p.as_str().is_empty() && *p != dot
}


/// The components of `path`, as `std::path::Path::components` gives them after
/// the root: empty and `.` parts are dropped, except a `.` that begins a
/// relative path; `..` is kept.
pub open spec fn components(path: Seq<char>) -> Seq<Seq<char>> {
    let segs = split_on(path, '/');
    if !is_absolute(path) && segs.len() > 0 && segs[0] == seq!['.'] {
        seq![seq!['.']] + kept(segs.drop_first())
    } else {
        kept(segs)
    }
}

/// `path` starts at the filesystem root.
pub open spec fn is_absolute(path: Seq<char>) -> bool {
    path.len() > 0 && path[0] == '/'
}

/// A component that names a file or directory: neither `.` nor `..`.
pub open spec fn is_normal(c: Seq<char>) -> bool {
    c != seq!['.'] && c != seq!['.', '.']
}

/// The path made of the root (where `absolute`) and `parts`, separated by `/`.
pub open spec fn render(absolute: bool, parts: Seq<Seq<char>>) -> Seq<char> {
    (if absolute { seq!['/'] } else { seq![] }) + join_slash(parts)
}

/// `path` has a parent: it has a component after the root.
pub open spec fn has_parent(path: Seq<char>) -> bool {
    components(path).len() > 0
}

/// The parent of `path`: its components but the last.
pub open spec fn parent_of(path: Seq<char>) -> Seq<char> {
    render(is_absolute(path), components(path).drop_last())
}

/// `path` has a file name: its last component is a normal one.
pub open spec fn has_basename(path: Seq<char>) -> bool {
    components(path).len() > 0 && is_normal(components(path).last())
}

/// The file name of `path`: its last component.
pub open spec fn basename_of(path: Seq<char>) -> Seq<char> {
    components(path).last()
}

/// Position of the last component of `ps` that is not a normal one, or -1.
pub open spec fn last_abnormal(ps: Seq<Seq<char>>) -> int
    decreases ps.len(),
{
    if ps.len() == 0 {
        -1
    } else if !is_normal(ps.last()) {
        ps.len() - 1
    } else {
        last_abnormal(ps.drop_last())
    }
}

/// Where the walk from `path` up to the root stops short: the deepest
/// ancestor (the path included) whose last component is `.` or `..` and so
/// has no file name, else, for a relative path, the empty path, which has no
/// parent. `None` where the walk reaches the root.
pub open spec fn walk_error(path: Seq<char>) -> Option<Seq<char>> {
    let ps = components(path);
    let j = last_abnormal(ps);
    if j >= 0 {
        Some(render(is_absolute(path), ps.subrange(0, j + 1)))
    } else if !is_absolute(path) {
        Some(seq![])
    } else {
        None
    }
}

/// The entries that the walk from `path` up to the root passes: for each
/// ancestor below the root, the path included, its parent directory and its
/// file name, topmost first.
pub open spec fn walk_keys(path: Seq<char>) -> Seq<(Seq<char>, Seq<char>)> {
    let ps = components(path);
    Seq::new(ps.len(), |i: int| (render(is_absolute(path), ps.subrange(0, i)), ps[i]))
}

pub proof fn lemma_last_abnormal(ps: Seq<Seq<char>>)
    ensures
        -1 <= last_abnormal(ps) < ps.len(),
        last_abnormal(ps) >= 0 ==> !is_normal(ps[last_abnormal(ps)]),
        forall|j: int| last_abnormal(ps) < j < ps.len() ==> is_normal(#[trigger] ps[j]),
    decreases ps.len(),
{
    if ps.len() > 0 && is_normal(ps.last()) {
        lemma_last_abnormal(ps.drop_last());
        assert forall|j: int| last_abnormal(ps) < j < ps.len() implies is_normal(#[trigger] ps[j]) by {
            if j < ps.len() - 1 {
                assert(ps[j] == ps.drop_last()[j]);
            }
        }
    }
}

proof fn lemma_kept(segs: Seq<Seq<char>>)
    ensures
        forall|i: int| 0 <= i < kept(segs).len() ==> #[trigger] kept(segs)[i].len() > 0,
    decreases segs.len(),
{
    if segs.len() > 0 {
        lemma_kept(segs.drop_last());
        let prev = kept(segs.drop_last());
        assert forall|i: int| 0 <= i < kept(segs).len() implies #[trigger] kept(segs)[i].len() > 0 by {
            if i < prev.len() {
                assert(kept(segs)[i] == prev[i]);
            }
        }
    }
}

/// Every component is non-empty.
pub proof fn lemma_components(path: Seq<char>)
    ensures
        forall|i: int| 0 <= i < components(path).len() ==> #[trigger] components(path)[i].len() > 0,
{
    let segs = split_on(path, '/');
    if !is_absolute(path) && segs.len() > 0 && segs[0] == seq!['.'] {
        lemma_kept(segs.drop_first());
        assert forall|i: int| 0 <= i < components(path).len() implies #[trigger] components(path)[i].len() > 0 by {
            if i > 0 {
                assert(components(path)[i] == kept(segs.drop_first())[i - 1]);
            }
        }
    } else {
        lemma_kept(segs);
    }
}

/// One more component extends the rendered path by a separator (except right
/// after the start) and that component.
pub proof fn lemma_render_step(absolute: bool, ps: Seq<Seq<char>>, i: int)
    requires
        0 <= i < ps.len(),
    ensures
        render(absolute, ps.subrange(0, i + 1)) == render(absolute, ps.subrange(0, i)) + (if i > 0 {
            seq!['/']
        } else {
            seq![]
        }) + ps[i],
{
    let t = ps.subrange(0, i + 1);
    assert(t.drop_last() =~= ps.subrange(0, i));
    assert(t.last() == ps[i]);
    if i == 0 {
        assert(join_slash(ps.subrange(0, 0)) =~= Seq::<char>::empty());
    }
    let pre: Seq<char> = if absolute { seq!['/'] } else { seq![] };
    let sep: Seq<char> = if i > 0 { seq!['/'] } else { seq![] };
    assert(render(absolute, t) =~= pre + join_slash(ps.subrange(0, i)) + sep + ps[i]);
}

/// The rendered prefixes of non-empty components get strictly longer.
pub proof fn lemma_render_grows(absolute: bool, ps: Seq<Seq<char>>, i: int, j: int)
    requires
        0 <= i < j <= ps.len(),
        forall|k: int| 0 <= k < ps.len() ==> #[trigger] ps[k].len() > 0,
    ensures
        render(absolute, ps.subrange(0, i)).len() < render(absolute, ps.subrange(0, j)).len(),
    decreases j - i,
{
    lemma_render_step(absolute, ps, j - 1);
    assert(ps[j - 1].len() > 0);
    if i < j - 1 {
        lemma_render_grows(absolute, ps, i, j - 1);
    }
}

/// No entry is passed twice on one walk.
pub proof fn lemma_walk_keys(path: Seq<char>)
    ensures
        walk_keys(path).no_duplicates(),
        walk_keys(path).len() == components(path).len(),
{
    let ps = components(path);
    lemma_components(path);
    assert forall|i: int, j: int|
        0 <= i < walk_keys(path).len() && 0 <= j < walk_keys(path).len() && i != j implies
        walk_keys(path)[i] != walk_keys(path)[j] by {
        if i < j {
            lemma_render_grows(is_absolute(path), ps, i, j);
        } else {
            lemma_render_grows(is_absolute(path), ps, j, i);
        }
    }
}

/// The components of `path`.
pub fn components_of(path: &str) -> (r: Vec<String>)
    ensures
        r@.map_values(|p: String| p@) == components(path@),
{
    let segs = split_text(path, '/');
    let ghost sv = segs@.map_values(|p: String| p@);
    proof {
        lemma_split_on_push(seq![], '/', 'x');
        assert(sv.len() == segs@.len());
    }
    let absolute = !path.is_empty() && path.get_char(0) == '/';
    let mut r: Vec<String> = Vec::new();
    let mut start: usize = 0;
    let dot = String::from_str(".");
    proof {
        reveal_strlit(".");
        assert(dot@ =~= seq!['.']);
    }
    if !absolute && segs.len() > 0 && segs[0] == dot {
        r.push(segs[0].clone());
        start = 1;
    }
    let ghost head = r@.map_values(|p: String| p@);
    proof {
        assert(sv.subrange(start as int, start as int) =~= Seq::<Seq<char>>::empty());
        assert(head + kept(sv.subrange(start as int, start as int)) =~= head);
    }
    let mut i: usize = start;
    while i < segs.len()
        invariant
            start <= i <= segs@.len(),
            sv == segs@.map_values(|p: String| p@),
            r@.map_values(|p: String| p@) == head + kept(sv.subrange(start as int, i as int)),
        decreases segs@.len() - i,
    {
        proof {
            assert(sv.subrange(start as int, i + 1).drop_last() =~= sv.subrange(start as int, i as int));
        }
        if is_kept_part(&segs[i]) {
            let ghost before = r@.map_values(|p: String| p@);
            r.push(segs[i].clone());
            assert(r@.map_values(|p: String| p@) =~= before.push(sv[i as int]));
        }
        i = i + 1;
    }
    proof {
        if start == 1 {
            assert(sv.subrange(1, sv.len() as int) =~= sv.drop_first());
            assert(head =~= seq![seq!['.']]);
        } else {
            assert(sv.subrange(0, sv.len() as int) =~= sv);
            assert(head =~= Seq::<Seq<char>>::empty());
        }
    }
    r
}

/// Whether `c` is a normal component.
pub(crate) fn is_normal_part(c: &String) -> (r: bool)
    ensures
        r == is_normal(c@),
{
    proof {
        reveal_strlit(".");
        reveal_strlit("..");
    }
    let dot = String::from_str(".");
    let dots = String::from_str("..");
    assert(dot@ =~= seq!['.']);
    assert(dots@ =~= seq!['.', '.']);
    *c != dot && *c != dots
}

/// The path made of the root (where `absolute`) and the first `n` parts.
pub fn render_parts(absolute: bool, parts: &Vec<String>, n: usize) -> (r: String)
    requires
        n <= parts@.len(),
    ensures
        r@ == render(absolute, parts@.map_values(|p: String| p@).subrange(0, n as int)),
{
    let ghost ps = parts@.map_values(|p: String| p@);
    proof {
        reveal_strlit("/");
    }
    let mut r = if absolute { String::from_str("/") } else { String::new() };
    proof {
        assert(join_slash(ps.subrange(0, 0)) =~= Seq::<char>::empty());
        assert(r@ =~= render(absolute, ps.subrange(0, 0)));
    }
    let mut i: usize = 0;
    while i < n
        invariant
            i <= n <= parts@.len(),
            ps == parts@.map_values(|p: String| p@),
            r@ == render(absolute, ps.subrange(0, i as int)),
        decreases n - i,
    {
        proof {
            reveal_strlit("/");
            lemma_render_step(absolute, ps, i as int);
        }
        let ghost before = r@;
        if i > 0 {
            r.append("/");
        }
        r.append(parts[i].as_str());
        proof {
            if i == 0 {
                assert(r@ =~= before + Seq::<char>::empty() + ps[i as int]);
            } else {
                assert(r@ =~= before + seq!['/'] + ps[i as int]);
            }
        }
        i = i + 1;
    }
    r
}

/// The parent directory of `path`, as `Path::parent` gives it, over normalised components.
pub fn get_parent(path: &str) -> (r: Result<String, Error>)
    ensures
        match r {
            Ok(d) => has_parent(path@) && d@ == parent_of(path@),
            Err(e) => !has_parent(path@) && e.is_malformed_path(path@),
        },
{
    let comps = components_of(path);
    if comps.len() == 0 {
        return Err(Error::MalformedPath(String::from_str(path)));
    }
    let absolute = !path.is_empty() && path.get_char(0) == '/';
    let ghost ps = comps@.map_values(|p: String| p@);
    assert(ps.subrange(0, comps.len() - 1) =~= ps.drop_last());
    Ok(render_parts(absolute, &comps, comps.len() - 1))
}

/// The file name of `path`, as `Path::file_name` gives it.
pub fn get_basename(path: &str) -> (r: Result<String, Error>)
    ensures
        match r {
            Ok(b) => has_basename(path@) && b@ == basename_of(path@),
            Err(e) => !has_basename(path@) && e.is_malformed_path(path@),
        },
{
    let comps = components_of(path);
    if comps.len() == 0 || !is_normal_part(&comps[comps.len() - 1]) {
        return Err(Error::MalformedPath(String::from_str(path)));
    }
    Ok(comps[comps.len() - 1].clone())
}

} // verus!
