//! Paths as text.
//!
//! A path is a text whose components stand between slashes. Two paths are the
//! same path when their components are, so `a//b` and `a/./b` both name `a/b`.
//! A path that a function of this module builds has one slash between
//! components.

use crate::text::{
    append_copy, chars_of, copy_of, join, join_all, same_text, split, split_on, string_of, views,
};
use vstd::prelude::*;

verus! {

/// The path begins at the root.
pub open spec fn is_rooted(p: Seq<char>) -> bool {
    p.len() > 0 && p[0] == '/'
}

pub open spec fn dot() -> Seq<char> {
    seq!['.']
}

pub open spec fn dot_dot() -> Seq<char> {
    seq!['.', '.']
}

/// The pieces that count as components: an empty piece never does, and a
/// single dot only as the very first piece.
pub open spec fn kept_pieces(pieces: Seq<Seq<char>>, first: bool) -> Seq<Seq<char>>
    decreases pieces.len(),
{
    if pieces.len() == 0 {
        Seq::empty()
    } else {
        let head = pieces[0];
        let rest = kept_pieces(pieces.skip(1), false);
        if head.len() == 0 || (head == dot() && !first) {
            rest
        } else {
            seq![head] + rest
        }
    }
}

/// The components of `p`, the root not among them.
pub open spec fn components(p: Seq<char>) -> Seq<Seq<char>> {
    kept_pieces(split_on(p, '/'), true)
}

/// A component that names something: neither `.` nor `..`.
pub open spec fn is_normal(c: Seq<char>) -> bool {
    c != dot() && c != dot_dot()
}

/// The root and the components of `p`: the root stands as a component of
/// its own, a single slash, in front of the others.
pub open spec fn rooted_components(p: Seq<char>) -> Seq<Seq<char>> {
    if is_rooted(p) {
        seq![seq!['/']] + components(p)
    } else {
        components(p)
    }
}

/// `a` and `b` name the same path.
pub open spec fn same_path(a: Seq<char>, b: Seq<char>) -> bool {
    rooted_components(a) == rooted_components(b)
}

/// The components with a slash between neighbours.
pub open spec fn joined(comps: Seq<Seq<char>>) -> Seq<char> {
    join_all(comps, seq!['/'])
}

/// `child` below `base`. A rooted `child` stands for itself.
pub open spec fn path_join(base: Seq<char>, child: Seq<char>) -> Seq<char> {
    if is_rooted(child) {
        child
    } else if base.len() == 0 || base.last() == '/' {
        base + child
    } else {
        base + seq!['/'] + child
    }
}

/// The last component, where it names something.
pub open spec fn file_name(p: Seq<char>) -> Option<Seq<char>> {
    let c = components(p);
    if c.len() > 0 && is_normal(c.last()) {
        Some(c.last())
    } else {
        None
    }
}

/// `p` lies at or below `base`: the components of `base`, the root among
/// them, are the first of `p`.
pub open spec fn path_starts_with(p: Seq<char>, base: Seq<char>) -> bool {
    let c = rooted_components(p);
    let b = rooted_components(base);
    b.len() <= c.len() && c.take(b.len() as int) == b
}

/// The path made of components of which the first may be the root.
pub open spec fn path_of(comps: Seq<Seq<char>>) -> Seq<char> {
    if comps.len() > 0 && comps[0] == seq!['/'] {
        seq!['/'] + joined(comps.skip(1))
    } else {
        joined(comps)
    }
}

/// What `p` holds below `base`, where it lies at or below it.
pub open spec fn path_below(p: Seq<char>, base: Seq<char>) -> Option<Seq<char>> {
    if path_starts_with(p, base) {
        Some(path_of(rooted_components(p).skip(rooted_components(base).len() as int)))
    } else {
        None
    }
}

pub fn components_of(p: &Vec<char>) -> (r: Vec<Vec<char>>)
    ensures
        views(r@) == components(p@),
{
    let pieces = split(p, '/');
    let mut out: Vec<Vec<char>> = Vec::new();
    let mut i: usize = 0;
    let ghost all = views(pieces@);
    assert(all.skip(0) == all);
    assert(views(out@) == Seq::<Seq<char>>::empty());
    while i < pieces.len()
        invariant
            i <= pieces.len(),
            all == views(pieces@),
            views(out@) + kept_pieces(all.skip(i as int), i == 0) == kept_pieces(all, true),
        decreases pieces.len() - i,
    {
        let ghost before = views(out@);
        let ghost rest = all.skip(i as int);
        let piece = &pieces[i];
        assert(rest[0] == piece@);
        assert(rest.skip(1) == all.skip(i + 1));
        let is_dot = piece.len() == 1 && piece[0] == '.';
        assert(is_dot == (piece@ == dot())) by {
            if is_dot {
                assert(piece@ =~= dot());
            }
        }
        if piece.len() == 0 || (is_dot && i != 0) {
        } else {
            out.push(copy_of(piece));
            proof {
                assert(views(out@) == before.push(piece@));
                assert(before + (seq![piece@] + kept_pieces(rest.skip(1), false)) == before.push(
                    piece@,
                ) + kept_pieces(rest.skip(1), false));
            }
        }
        i += 1;
    }
    assert(all.skip(pieces.len() as int) == Seq::<Seq<char>>::empty());
    assert(views(out@) + Seq::<Seq<char>>::empty() == views(out@));
    out
}

pub fn rooted(p: &Vec<char>) -> (b: bool)
    ensures
        b == is_rooted(p@),
{
    p.len() > 0 && p[0] == '/'
}

pub fn normal(c: &Vec<char>) -> (b: bool)
    ensures
        b == is_normal(c@),
{
    let is_dot = c.len() == 1 && c[0] == '.';
    let is_dot_dot = c.len() == 2 && c[0] == '.' && c[1] == '.';
    proof {
        if is_dot {
            assert(c@ =~= dot());
        }
        if is_dot_dot {
            assert(c@ =~= dot_dot());
        }
    }
    !is_dot && !is_dot_dot
}

/// Whether `a` and `b` hold the same texts in the same order.
pub fn same_texts(a: &Vec<Vec<char>>, from: usize, b: &Vec<Vec<char>>) -> (r: bool)
    requires
        from <= a.len(),
    ensures
        r == (views(a@).skip(from as int) == views(b@)),
{
    if a.len() - from != b.len() {
        assert(views(a@).skip(from as int).len() == a.len() - from);
        assert(views(b@).len() == b.len());
        return false;
    }
    let mut i: usize = 0;
    while i < b.len()
        invariant
            i <= b.len(),
            a.len() - from == b.len(),
            forall|j: int| 0 <= j < i ==> a@[from + j]@ == b@[j]@,
        decreases b.len() - i,
    {
        if !same_text(&a[from + i], &b[i]) {
            assert(views(a@).skip(from as int)[i as int] == a@[from + i]@);
            assert(views(b@)[i as int] == b@[i as int]@);
            return false;
        }
        i += 1;
    }
    assert(views(a@).skip(from as int) =~= views(b@));
    true
}

pub fn rooted_components_of(p: &Vec<char>) -> (r: Vec<Vec<char>>)
    ensures
        views(r@) == rooted_components(p@),
{
    let comps = components_of(p);
    if rooted(p) {
        let mut out: Vec<Vec<char>> = Vec::new();
        let mut root: Vec<char> = Vec::new();
        root.push('/');
        assert(root@ =~= seq!['/']);
        out.push(root);
        let mut i: usize = 0;
        while i < comps.len()
            invariant
                i <= comps.len(),
                views(out@) =~= seq![seq!['/']] + views(comps@).take(i as int),
            decreases comps.len() - i,
        {
            let ghost before = views(out@);
            out.push(copy_of(&comps[i]));
            assert(views(out@) =~= before.push(comps@[i as int]@));
            i += 1;
        }
        assert(views(comps@).take(comps.len() as int) == views(comps@));
        out
    } else {
        comps
    }
}

/// Whether the two paths have the same components.
pub fn paths_equal(a: &str, b: &str) -> (r: bool)
    ensures
        r == same_path(a@, b@),
{
    let x = rooted_components_of(&chars_of(a));
    let y = rooted_components_of(&chars_of(b));
    assert(views(x@).skip(0) == views(x@));
    same_texts(&x, 0, &y)
}

pub fn join_path(base: &str, child: &str) -> (r: String)
    ensures
        r@ == path_join(base@, child@),
{
    let b = chars_of(base);
    let c = chars_of(child);
    if rooted(&c) {
        return string_of(&c);
    }
    let mut out = copy_of(&b);
    if b.len() > 0 && b[b.len() - 1] != '/' {
        out.push('/');
    }
    append_copy(&mut out, &c);
    string_of(&out)
}

/// The last component of `path`, where it names something.
pub fn last_component(path: &str) -> (r: Option<String>)
    ensures
        match r {
            Some(name) => file_name(path@) == Some(name@),
            None => file_name(path@) is None,
        },
{
    let p = chars_of(path);
    let comps = components_of(&p);
    if comps.len() > 0 && normal(&comps[comps.len() - 1]) {
        assert(views(comps@).last() == comps@[comps.len() - 1]@);
        Some(string_of(&comps[comps.len() - 1]))
    } else {
        if comps.len() > 0 {
            assert(views(comps@).last() == comps@[comps.len() - 1]@);
        }
        None
    }
}

/// Whether `path` lies at or below `base`.
pub fn starts_with_path(path: &str, base: &str) -> (r: bool)
    ensures
        r == path_starts_with(path@, base@),
{
    let pc = rooted_components_of(&chars_of(path));
    let bc = rooted_components_of(&chars_of(base));
    if bc.len() > pc.len() {
        return false;
    }
    let head = copy_texts(&pc, 0, bc.len());
    assert(views(head@).skip(0) == views(head@));
    same_texts(&head, 0, &bc)
}

/// The texts of `src` from index `from` up to, not including, `to`.
pub fn copy_texts(src: &Vec<Vec<char>>, from: usize, to: usize) -> (r: Vec<Vec<char>>)
    requires
        from <= to <= src.len(),
    ensures
        views(r@) == views(src@).subrange(from as int, to as int),
{
    let mut out: Vec<Vec<char>> = Vec::new();
    let mut i: usize = from;
    while i < to
        invariant
            from <= i <= to,
            to <= src.len(),
            views(out@) =~= views(src@).subrange(from as int, i as int),
        decreases to - i,
    {
        let ghost before = views(out@);
        out.push(copy_of(&src[i]));
        assert(views(out@) =~= before.push(src@[i as int]@));
        i += 1;
    }
    out
}

/// What `path` holds below `base`, where it lies at or below it.
pub fn strip_prefix(path: &str, base: &str) -> (r: Option<String>)
    ensures
        match r {
            Some(rest) => path_below(path@, base@) == Some(rest@),
            None => path_below(path@, base@) is None,
        },
{
    if !starts_with_path(path, base) {
        return None;
    }
    let pc = rooted_components_of(&chars_of(path));
    let bc = rooted_components_of(&chars_of(base));
    let rest = copy_texts(&pc, bc.len(), pc.len());
    assert(views(pc@).subrange(bc.len() as int, pc.len() as int) == views(pc@).skip(
        bc.len() as int,
    ));
    let mut slash: Vec<char> = Vec::new();
    slash.push('/');
    assert(slash@ =~= seq!['/']);
    let mut out: Vec<char> = Vec::new();
    if rest.len() > 0 && same_text(&rest[0], &slash) {
        assert(views(rest@)[0] == rest@[0]@);
        out.push('/');
        let tail = copy_texts(&rest, 1, rest.len());
        assert(views(rest@).subrange(1, rest.len() as int) == views(rest@).skip(1));
        append_copy(&mut out, &join(&tail, &slash));
    } else {
        if rest.len() > 0 {
            assert(views(rest@)[0] == rest@[0]@);
        }
        append_copy(&mut out, &join(&rest, &slash));
    }
    assert(out@ =~= path_of(views(rest@)));
    Some(string_of(&out))
}

} // verus!
