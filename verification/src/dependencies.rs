//! The dependencies that `dpkg-shlibdeps` finds for a binary.

use crate::text::strs;
use crate::error::{CDResult, CargoDebError};
use crate::text::{
    chars_of, has_prefix, lines, lines_of, replace, replace_all, split, split_on, starts_with,
    string_of, trim, trimmed, views,
};
use vstd::prelude::*;

verus! {

/// The index of the first line that begins with `shlibs:`, or the number of
/// lines where none does.
pub open spec fn shlibs_line(ls: Seq<Seq<char>>) -> int
    decreases ls.len(),
{
    if ls.len() == 0 {
        0
    } else if has_prefix(ls[0], "shlibs:"@) {
        0
    } else {
        1 + shlibs_line(ls.skip(1))
    }
}

/// The packages that a line names: what stands between commas behind
/// `shlibs:Depends=`, without the white space around it. The compiler's
/// support library is left out, since every system has it.
pub open spec fn named_packages(parts: Seq<Seq<char>>) -> Seq<Seq<char>>
    decreases parts.len(),
{
    if parts.len() == 0 {
        Seq::empty()
    } else if has_prefix(trimmed(parts.last()), "libgcc-"@) {
        named_packages(parts.drop_last())
    } else {
        named_packages(parts.drop_last()).push(trimmed(parts.last()))
    }
}

/// The dependencies that the output of `dpkg-shlibdeps -O` names, or
/// nothing where no line of it begins with `shlibs:`.
pub open spec fn shlibs_depends(output: Seq<char>) -> Option<Seq<Seq<char>>> {
    let ls = lines_of(output);
    let i = shlibs_line(ls);
    if 0 <= i < ls.len() {
        Some(named_packages(split_on(replace_all(ls[i], "shlibs:Depends="@, Seq::empty()), ',')))
    } else {
        None
    }
}

proof fn lemma_shlibs_line(ls: Seq<Seq<char>>, i: int)
    requires
        0 <= i <= ls.len(),
        forall|j: int| 0 <= j < i ==> !has_prefix(#[trigger] ls[j], "shlibs:"@),
        i < ls.len() ==> has_prefix(ls[i], "shlibs:"@),
    ensures
        shlibs_line(ls) == i,
    decreases ls.len(),
{
    if ls.len() > 0 && i > 0 {
        assert(!has_prefix(ls[0], "shlibs:"@));
        assert forall|j: int| 0 <= j < i - 1 implies !has_prefix(
            #[trigger] ls.skip(1)[j],
            "shlibs:"@,
        ) by {
            assert(ls.skip(1)[j] == ls[j + 1]);
        }
        lemma_shlibs_line(ls.skip(1), i - 1);
    }
}

/// Resolves the dependencies of a binary from what `dpkg-shlibdeps -O`
/// printed for it.
pub fn resolve(output: &str) -> (r: CDResult<Vec<String>>)
    ensures
        match shlibs_depends(output@) {
            Some(deps) => r matches Ok(v) && strs(v@) == deps,
            None => r matches Err(CargoDebError::Str(m)) && m@
                == "Failed to find dependency specification."@,
        },
{
    let all = lines(&chars_of(output));
    let ghost ls = views(all@);
    let marker = chars_of("shlibs:");
    let mut i: usize = 0;
    while i < all.len() && !starts_with(&all[i], &marker)
        invariant
            i <= all.len(),
            ls == views(all@),
            marker@ == "shlibs:"@,
            forall|j: int| 0 <= j < i ==> !has_prefix(#[trigger] ls[j], "shlibs:"@),
        decreases all.len() - i,
    {
        assert(ls[i as int] == all@[i as int]@);
        i += 1;
    }
    proof {
        if i < all.len() {
            assert(ls[i as int] == all@[i as int]@);
        }
        lemma_shlibs_line(ls, i as int);
    }
    if i == all.len() {
        return Err(CargoDebError::Str("Failed to find dependency specification."));
    }
    let nothing: Vec<char> = Vec::new();
    assert(nothing@ =~= Seq::<char>::empty());
    let line = replace(&all[i], &chars_of("shlibs:Depends="), &nothing);
    let parts = split(&line, ',');
    let ghost ps = views(parts@);
    let mut deps: Vec<String> = Vec::new();
    let mut k: usize = 0;
    assert(ps.take(0) =~= Seq::<Seq<char>>::empty());
    assert(strs(deps@) =~= named_packages(ps.take(0)));
    while k < parts.len()
        invariant
            k <= parts.len(),
            ps == views(parts@),
            strs(deps@) == named_packages(ps.take(k as int)),
        decreases parts.len() - k,
    {
        let ghost before = strs(deps@);
        proof {
            let next = ps.take(k + 1);
            assert(next.drop_last() == ps.take(k as int));
            assert(next.last() == parts@[k as int]@);
        }
        let dep = trim(&parts[k]);
        // libgcc guaranteed by LSB to always be present
        if !starts_with(&dep, &chars_of("libgcc-")) {
            deps.push(string_of(&dep));
            assert(strs(deps@) =~= before.push(dep@));
        }
        k += 1;
    }
    assert(ps.take(parts.len() as int) == ps);
    Ok(deps)
}

} // verus!
