//! File-system paths as text, with the Unix reading of `std::path`: `/` separates
//! components, repeated separators and `.` components after the first are ignored.
use vstd::prelude::*;
use crate::text;
use crate::text::{split_chars, to_chars};

verus! {

/// The pieces of `p` that are neither empty nor `.`.
pub open spec fn kept_pieces(ps: Seq<Seq<char>>) -> Seq<Seq<char>>
    decreases ps.len(),
{
    if ps.len() == 0 {
        seq![]
    } else {
        let k = kept_pieces(ps.drop_last());
        if ps.last().len() == 0 || ps.last() == seq!['.'] {
            k
        } else {
            k.push(ps.last())
        }
    }
}

/// The named components of `p` (normal names and `..`), in order.
pub open spec fn named_components(p: Seq<char>) -> Seq<Seq<char>> {
    kept_pieces(text::split_on(p, '/'))
}

/// Whether `p` begins with a `.` component.
pub open spec fn starts_with_cur_dir(p: Seq<char>) -> bool {
    text::split_on(p, '/')[0] == seq!['.']
}

/// The last component of `p` when it is a normal name (what `Path::file_name`
/// returns).
pub open spec fn file_name(p: Seq<char>) -> Option<Seq<char>> {
    let k = named_components(p);
    if k.len() > 0 && k.last() != seq!['.', '.'] {
        Some(k.last())
    } else {
        None
    }
}

/// Whether `p` has a parent (what `Path::parent` tells with `Some`): its last
/// component is a name, `.` or `..`.
pub open spec fn has_parent(p: Seq<char>) -> bool {
    named_components(p).len() > 0 || starts_with_cur_dir(p)
}

/// The file name of the parent of `p`.
pub open spec fn parent_file_name(p: Seq<char>) -> Option<Seq<char>> {
    let k = named_components(p);
    if k.len() >= 2 && k[k.len() - 2] != seq!['.', '.'] {
        Some(k[k.len() - 2])
    } else {
        None
    }
}

/// `base` followed by the relative path `name`, with a `/` between them unless `base` is
/// empty or already ends with one (what `Path::join` gives for a relative name).
pub open spec fn join_path(base: Seq<char>, name: Seq<char>) -> Seq<char> {
    if base.len() == 0 || base.last() == '/' {
        base + name
    } else {
        base + seq!['/'] + name
    }
}

/// A name that `Path::join` appends as one normal component: not empty, without `/`,
/// and neither `.` nor `..`.
pub open spec fn is_plain_name(name: Seq<char>) -> bool {
    &&& name.len() > 0
    &&& forall|i: int| 0 <= i < name.len() ==> name[i] != '/'
    &&& name != seq!['.']
    &&& name != seq!['.', '.']
}

/// Joining a plain name onto any base gives a path whose file name is that name.
pub proof fn law_file_name_of_join(base: Seq<char>, name: Seq<char>)
    requires
        is_plain_name(name),
    ensures
        file_name(join_path(base, name)) == Some(name),
{
    let j = join_path(base, name);
    if base.len() == 0 {
        assert(j == name);
        text::lemma_split_on_without_sep(name, '/');
        let ps = text::split_on(name, '/');
        assert(ps.drop_last() =~= Seq::<Seq<char>>::empty());
        assert(named_components(j) == kept_pieces(ps.drop_last()).push(name));
    } else {
        let pre = if base.last() == '/' { base } else { base + seq!['/'] };
        assert(j == pre + name);
        text::lemma_split_on_after_sep(pre, name, '/');
        let ps = text::split_on(pre + name, '/');
        assert(ps.drop_last() == text::split_on(pre.drop_last(), '/'));
        assert(named_components(j) == kept_pieces(ps.drop_last()).push(name));
    }
}

pub open spec fn piece_views(v: Seq<Vec<char>>) -> Seq<Seq<char>> {
    v.map_values(|w: Vec<char>| w@)
}

fn is_dot(w: &Vec<char>) -> (r: bool)
    ensures
        r == (w@ == seq!['.']),
{
    if w.len() == 1 && w[0] == '.' {
        assert(w@ =~= seq!['.']);
        true
    } else {
        false
    }
}

fn is_dot_dot(w: &Vec<char>) -> (r: bool)
    ensures
        r == (w@ == seq!['.', '.']),
{
    if w.len() == 2 && w[0] == '.' && w[1] == '.' {
        assert(w@ =~= seq!['.', '.']);
        true
    } else {
        false
    }
}

/// The named components of a path.
pub fn path_components(p: &str) -> (r: Vec<Vec<char>>)
    ensures
        piece_views(r@) == named_components(p@),
{
    let v = to_chars(p);
    let ps = split_chars(&v, '/');
    let ghost m = piece_views(ps@);
    let mut out: Vec<Vec<char>> = Vec::new();
    let mut i: usize = 0;
    assert(m.subrange(0, 0) =~= Seq::<Seq<char>>::empty());
    assert(piece_views(out@) =~= Seq::<Seq<char>>::empty());
    while i < ps.len()
        invariant
            i <= ps.len(),
            m == piece_views(ps@),
            piece_views(out@) == kept_pieces(m.subrange(0, i as int)),
        decreases ps.len() - i,
    {
        let ghost post = m.subrange(0, i + 1);
        assert(post.drop_last() == m.subrange(0, i as int));
        assert(post.last() == ps@[i as int]@);
        if ps[i].len() != 0 && !is_dot(&ps[i]) {
            let ghost before = out@;
            out.push(text::copy_range(&ps[i], 0, ps[i].len()));
            assert(ps@[i as int]@.subrange(0, ps@[i as int]@.len() as int) == ps@[i as int]@);
            assert(piece_views(out@) =~= piece_views(before).push(ps@[i as int]@));
        }
        i += 1;
    }
    assert(m.subrange(0, m.len() as int) == m);
    out
}

/// The file name of a path.
pub fn path_file_name(p: &str) -> (r: Option<Vec<char>>)
    ensures
        match r {
            Some(n) => file_name(p@) == Some(n@),
            None => file_name(p@) is None,
        },
{
    let k = path_components(p);
    if k.len() > 0 && !is_dot_dot(&k[k.len() - 1]) {
        let n = k.len();
        Some(text::copy_range(&k[n - 1], 0, k[n - 1].len()))
    } else {
        None
    }
}

/// Whether a path has a parent, and the parent's file name.
pub fn path_parent_file_name(p: &str) -> (r: (bool, Option<Vec<char>>))
    ensures
        r.0 == has_parent(p@),
        match r.1 {
            Some(n) => parent_file_name(p@) == Some(n@),
            None => parent_file_name(p@) is None,
        },
{
    let k = path_components(p);
    let v = to_chars(p);
    let ps = split_chars(&v, '/');
    let has = k.len() > 0 || is_dot(&ps[0]);
    let n = k.len();
    if n >= 2 && !is_dot_dot(&k[n - 2]) {
        (has, Some(text::copy_range(&k[n - 2], 0, k[n - 2].len())))
    } else {
        (has, None)
    }
}

/// `base` joined with the relative path `name`.
pub fn path_join(base: &str, name: &Vec<char>) -> (r: Vec<char>)
    ensures
        r@ == join_path(base@, name@),
{
    let mut out = to_chars(base);
    if out.len() > 0 && out[out.len() - 1] != '/' {
        out.push('/');
    }
    text::append_chars(&mut out, name);
    out
}

} // verus!
