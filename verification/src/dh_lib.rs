//! The part of debhelper's library that the systemd support needs: the search
//! for a packaging file, the filling of script fragments, and their merge
//! into the maintainer scripts.

use crate::autoscripts::{autoscript_template, lookup_autoscript};
use crate::error::{CDResult, CargoDebError};
use crate::fragments::ScriptFragments;
use crate::fstree::FileTree;
use crate::listener::Listener;
use crate::paths::{join_path, path_join};
use crate::text::{
    append_copy, append_str, chars_of, contains, contains_text, lemma_replace_leaves_no_pattern,
    lemma_replace_puts_replacement, no_common_char, opt_text, replace, replace_all, string_of,
};
use crate::utf8::{decode, encode, lemma_text_of_encoded, text_of};
use vstd::prelude::*;
use vstd::utf8::encode_utf8;

verus! {

// ---------------------------------------------------------------------------
// Finding a packaging file
// ---------------------------------------------------------------------------

/// `filename`, behind the unit's name and a dot where a unit is named.
pub open spec fn named_filename(filename: Seq<char>, unit_name: Option<Seq<char>>) -> Seq<char> {
    match unit_name {
        Some(u) => u + seq!['.'] + filename,
        None => filename,
    }
}

/// The paths at which a packaging file is looked for, the most specific
/// first. The names without the package in front are tried only for the main
/// package.
pub open spec fn pkgfile_candidates(
    dir: Seq<char>,
    main_package: Seq<char>,
    package: Seq<char>,
    filename: Seq<char>,
    unit_name: Option<Seq<char>>,
) -> Seq<Seq<char>> {
    let named = named_filename(filename, unit_name);
    let specific = seq![
        path_join(dir, package + seq!['.'] + named),
        path_join(dir, package + seq!['.'] + filename),
    ];
    if main_package == package {
        specific + seq![path_join(dir, named), path_join(dir, filename)]
    } else {
        specific
    }
}

/// The first of `candidates` that is a file in `tree`.
pub open spec fn first_file(tree: &FileTree, candidates: Seq<Seq<char>>) -> Option<Seq<char>>
    decreases candidates.len(),
{
    if candidates.len() == 0 {
        None
    } else if tree.has_file(candidates[0]) {
        Some(candidates[0])
    } else {
        first_file(tree, candidates.skip(1))
    }
}

fn dotted(a: &str, b: &str) -> (r: String)
    ensures
        r@ == a@ + seq!['.'] + b@,
{
    let mut v = chars_of(a);
    v.push('.');
    append_str(&mut v, b);
    assert(v@ =~= a@ + seq!['.'] + b@);
    string_of(&v)
}

/// Finds the file in `dir` that best matches `package`, `filename` and the
/// unit's name: `<package>.<unit>.<filename>`, then `<package>.<filename>`,
/// and for the main package also `<unit>.<filename>`, then `<filename>`.
pub fn pkgfile(
    files: &FileTree,
    dir: &str,
    main_package: &str,
    package: &str,
    filename: &str,
    unit_name: Option<&str>,
) -> (r: Option<String>)
    ensures
        match r {
            Some(p) => first_file(
                files,
                pkgfile_candidates(dir@, main_package@, package@, filename@, opt_text(unit_name)),
            ) == Some(p@),
            None => first_file(
                files,
                pkgfile_candidates(dir@, main_package@, package@, filename@, opt_text(unit_name)),
            ) is None,
        },
{
    let named = match unit_name {
        Some(u) => dotted(u, filename),
        None => filename.to_owned(),
    };
    let ghost cands = pkgfile_candidates(
        dir@,
        main_package@,
        package@,
        filename@,
        opt_text(unit_name),
    );
    let ghost c1 = cands.skip(1);
    let ghost c2 = c1.skip(1);
    let ghost c3 = c2.skip(1);
    let ghost c4 = c3.skip(1);
    let first = join_path(dir, dotted(package, named.as_str()).as_str());
    assert(first@ == cands[0]);
    if files.is_file(first.as_str()) {
        return Some(first);
    }
    assert(first_file(files, cands) == first_file(files, c1));
    let second = join_path(dir, dotted(package, filename).as_str());
    assert(second@ == c1[0]);
    if files.is_file(second.as_str()) {
        return Some(second);
    }
    assert(first_file(files, c1) == first_file(files, c2));
    let main = chars_of(main_package);
    let pkg = chars_of(package);
    if crate::text::same_text(&main, &pkg) {
        let third = join_path(dir, named.as_str());
        assert(third@ == c2[0]);
        if files.is_file(third.as_str()) {
            return Some(third);
        }
        assert(first_file(files, c2) == first_file(files, c3));
        let fourth = join_path(dir, filename);
        assert(fourth@ == c3[0]);
        if files.is_file(fourth.as_str()) {
            return Some(fourth);
        }
        assert(first_file(files, c3) == first_file(files, c4));
        assert(c4.len() == 0);
    } else {
        assert(c2.len() == 0);
    }
    None
}

// ---------------------------------------------------------------------------
// Filling a fragment
// ---------------------------------------------------------------------------

/// `t`, with a line feed added where it does not end in one.
pub open spec fn with_final_newline(t: Seq<char>) -> Seq<char> {
    if t.len() > 0 && t.last() == '\n' {
        t
    } else {
        t.push('\n')
    }
}

/// The fragment called `name`, ending in a line feed.
pub open spec fn embedded_autoscript(name: Seq<char>) -> Seq<char>
    recommends
        autoscript_template(name) is Some,
{
    with_final_newline(autoscript_template(name)->0)
}

/// Whether a fragment is called `name`.
pub fn is_autoscript(name: &str) -> (b: bool)
    ensures
        b == autoscript_template(name@).is_some(),
{
    lookup_autoscript(name).is_some()
}

fn template_chars(snippet_filename: &str) -> (r: Vec<char>)
    requires
        autoscript_template(snippet_filename@) is Some,
    ensures
        r@ == embedded_autoscript(snippet_filename@),
{
    let mut t: Vec<char> = Vec::new();
    match lookup_autoscript(snippet_filename) {
        Some(s) => {
            t = chars_of(s);
        },
        None => {},
    }
    if !(t.len() > 0 && t[t.len() - 1] == '\n') {
        t.push('\n');
    }
    t
}

/// The text of the fragment called `snippet_filename`.
pub fn get_embedded_autoscript(snippet_filename: &str) -> (r: String)
    requires
        autoscript_template(snippet_filename@) is Some,
    ensures
        r@ == embedded_autoscript(snippet_filename@),
{
    string_of(&template_chars(snippet_filename))
}

/// The place in a fragment that stands for `key`.
pub open spec fn token(key: Seq<char>) -> Seq<char> {
    seq!['#'] + key + seq!['#']
}

pub open spec fn pairs(v: Seq<(String, String)>) -> Seq<(Seq<char>, Seq<char>)> {
    v.map_values(|p: (String, String)| (p.0@, p.1@))
}

/// `t` after each replacement in turn: every place that stands for the key
/// gives way to the value.
pub open spec fn substituted(t: Seq<char>, reps: Seq<(Seq<char>, Seq<char>)>) -> Seq<char>
    decreases reps.len(),
{
    if reps.len() == 0 {
        t
    } else {
        replace_all(substituted(t, reps.drop_last()), token(reps.last().0), reps.last().1)
    }
}

/// A fragment that is filled with one value for one key: where the value is
/// not empty and has no character of the key's place in it, no place for the
/// key is left, and where the fragment had such a place, the value stands
/// in the result.
pub proof fn lemma_substitution_fills_every_place(t: Seq<char>, key: Seq<char>, value: Seq<char>)
    requires
        value.len() > 0,
        no_common_char(value, token(key)),
    ensures
        !contains_text(substituted(t, seq![(key, value)]), token(key)),
        contains_text(t, token(key)) ==> contains_text(substituted(t, seq![(key, value)]), value),
{
    let reps = seq![(key, value)];
    assert(reps.drop_last() =~= Seq::<(Seq<char>, Seq<char>)>::empty());
    assert(substituted(t, reps.drop_last()) == t);
    assert(substituted(t, reps) == replace_all(t, token(key), value));
    lemma_replace_leaves_no_pattern(t, token(key), value);
    if contains_text(t, token(key)) {
        lemma_replace_puts_replacement(t, token(key), value);
    }
}

fn sed_chars(snippet_filename: &str, replacements: &Vec<(String, String)>) -> (r: Vec<char>)
    requires
        autoscript_template(snippet_filename@) is Some,
    ensures
        r@ == substituted(embedded_autoscript(snippet_filename@), pairs(replacements@)),
{
    let mut snippet = template_chars(snippet_filename);
    let ghost start = snippet@;
    let ghost all = pairs(replacements@);
    let mut i: usize = 0;
    while i < replacements.len()
        invariant
            i <= replacements.len(),
            all == pairs(replacements@),
            snippet@ == substituted(start, all.take(i as int)),
        decreases replacements.len() - i,
    {
        let mut pat: Vec<char> = Vec::new();
        pat.push('#');
        append_str(&mut pat, replacements[i].0.as_str());
        pat.push('#');
        let to = chars_of(replacements[i].1.as_str());
        proof {
            assert(pat@ =~= token(replacements@[i as int].0@));
            let next = all.take(i + 1);
            assert(next.drop_last() == all.take(i as int));
            assert(next.last() == (replacements@[i as int].0@, replacements@[i as int].1@));
        }
        snippet = replace(&snippet, &pat, &to);
        i += 1;
    }
    assert(all.take(replacements.len() as int) == all);
    snippet
}

/// The fragment called `snippet_filename` with the replacements made.
pub fn autoscript_sed(snippet_filename: &str, replacements: &Vec<(String, String)>) -> (r:
    String)
    requires
        autoscript_template(snippet_filename@) is Some,
    ensures
        r@ == substituted(embedded_autoscript(snippet_filename@), pairs(replacements@)),
{
    string_of(&sed_chars(snippet_filename, replacements))
}

// ---------------------------------------------------------------------------
// Gathering fragments
// ---------------------------------------------------------------------------

/// The name under which the fragments for `script` of `package` are gathered.
pub open spec fn fragment_key(package: Seq<char>, script: Seq<char>) -> Seq<char> {
    package + seq!['.'] + script + ".debhelper"@
}

/// The scripts that undo an installation. What was asked for last runs first
/// in them.
pub open spec fn is_teardown(script: Seq<char>) -> bool {
    script == "postrm"@ || script == "prerm"@
}

/// `body` between the line that says who added it and the line that ends it.
pub open spec fn marked_block(tool: Seq<char>, body: Seq<char>) -> Seq<char> {
    "# Automatically added by "@ + tool + seq!['\n'] + body
        + "# End automatically added section\n"@
}

/// `block` joined to what was gathered before: in front of it in a script
/// that undoes an installation, behind it in the others.
pub open spec fn merged(existing: Seq<char>, script: Seq<char>, block: Seq<char>) -> Seq<char> {
    if is_teardown(script) {
        block + existing
    } else {
        existing + block
    }
}

/// The bytes gathered under `key`, none where nothing was gathered yet.
pub open spec fn gathered(m: Map<Seq<char>, Seq<u8>>, key: Seq<char>) -> Seq<u8> {
    if m.contains_key(key) {
        m[key]
    } else {
        Seq::empty()
    }
}

/// The fragments after `block` was gathered for `script`, or nothing where
/// what was gathered before is no UTF-8.
pub open spec fn autoscript_step(
    m: Map<Seq<char>, Seq<u8>>,
    package: Seq<char>,
    script: Seq<char>,
    block: Seq<char>,
) -> Option<Map<Seq<char>, Seq<u8>>> {
    let key = fragment_key(package, script);
    match text_of(gathered(m, key)) {
        Some(t) => Some(m.insert(key, encode_utf8(merged(t, script, block)))),
        None => None,
    }
}

fn fragment_key_of(package: &str, script: &str) -> (r: String)
    ensures
        r@ == fragment_key(package@, script@),
{
    let mut v = chars_of(package);
    v.push('.');
    append_str(&mut v, script);
    append_str(&mut v, ".debhelper");
    assert(v@ =~= fragment_key(package@, script@));
    string_of(&v)
}

fn teardown(script: &str) -> (b: bool)
    ensures
        b == is_teardown(script@),
{
    let s = chars_of(script);
    crate::text::text_is(&s, "postrm") || crate::text::text_is(&s, "prerm")
}

fn gathered_text(scripts: &ScriptFragments, key: &str) -> (r: Option<Vec<char>>)
    requires
        scripts.wf(),
    ensures
        match r {
            Some(t) => text_of(gathered(scripts@, key@)) == Some(t@),
            None => text_of(gathered(scripts@, key@)) is None,
        },
{
    match scripts.get(key) {
        Some(bytes) => decode(bytes),
        None => {
            let none: Vec<u8> = Vec::new();
            assert(none@ =~= Seq::<u8>::empty());
            decode(&none)
        },
    }
}

/// Fills the fragment called `snippet_filename` and gathers it for `script`
/// of `package`, between two comment lines; `tool` is named in the first.
pub fn autoscript<L: Listener + ?Sized>(
    scripts: &mut ScriptFragments,
    package: &str,
    script: &str,
    snippet_filename: &str,
    replacements: &Vec<(String, String)>,
    tool: &str,
    listener: &mut L,
) -> (r: CDResult<()>)
    requires
        old(scripts).wf(),
        autoscript_template(snippet_filename@) is Some,
        replacements@.len() > 0,
    ensures
        final(scripts).wf(),
        match autoscript_step(
            old(scripts)@,
            package@,
            script@,
            marked_block(
                tool@,
                substituted(embedded_autoscript(snippet_filename@), pairs(replacements@)),
            ),
        ) {
            Some(m) => r is Ok && final(scripts)@ == m,
            None => final(scripts)@ == old(scripts)@ && (r matches Err(
                CargoDebError::InvalidUtf8(k),
            ) && k@ == fragment_key(package@, script@)),
        },
{
    let outfile = fragment_key_of(package, script);
    let mut msg = chars_of("Maintainer script ");
    append_str(&mut msg, script);
    append_str(&mut msg, " will be augmented with autoscript ");
    append_str(&mut msg, snippet_filename);
    listener.info(string_of(&msg));

    let existing = match gathered_text(scripts, outfile.as_str()) {
        Some(t) => t,
        None => {
            return Err(CargoDebError::InvalidUtf8(outfile));
        },
    };
    let mut block = chars_of("# Automatically added by ");
    append_str(&mut block, tool);
    block.push('\n');
    let body = sed_chars(snippet_filename, replacements);
    append_copy(&mut block, &body);
    append_str(&mut block, "# End automatically added section\n");
    assert(block@ =~= marked_block(
        tool@,
        substituted(embedded_autoscript(snippet_filename@), pairs(replacements@)),
    ));
    let mut new_text: Vec<char> = Vec::new();
    if teardown(script) {
        append_copy(&mut new_text, &block);
        append_copy(&mut new_text, &existing);
    } else {
        append_copy(&mut new_text, &existing);
        append_copy(&mut new_text, &block);
    }
    assert(new_text@ =~= merged(existing@, script@, block@));
    scripts.insert(outfile.as_str(), encode(&new_text));
    Ok(())
}

/// Two fragments gathered one after the other for one script: in a script
/// that undoes an installation the second stands in front of the first, in
/// every other script behind it.
pub proof fn lemma_autoscript_merge_order(
    m: Map<Seq<char>, Seq<u8>>,
    package: Seq<char>,
    script: Seq<char>,
    first: Seq<char>,
    second: Seq<char>,
)
    requires
        text_of(gathered(m, fragment_key(package, script))) is Some,
    ensures
        autoscript_step(m, package, script, first) is Some,
        autoscript_step(autoscript_step(m, package, script, first)->0, package, script, second)
            is Some,
        ({
            let key = fragment_key(package, script);
            let before = text_of(gathered(m, key))->0;
            let after = autoscript_step(
                autoscript_step(m, package, script, first)->0,
                package,
                script,
                second,
            )->0;
            text_of(gathered(after, key)) == Some(
                if is_teardown(script) {
                    second + first + before
                } else {
                    before + first + second
                },
            )
        }),
{
    let key = fragment_key(package, script);
    let before = text_of(gathered(m, key))->0;
    let m1 = autoscript_step(m, package, script, first)->0;
    lemma_text_of_encoded(merged(before, script, first));
    assert(gathered(m1, key) == encode_utf8(merged(before, script, first)));
    let mid = merged(before, script, first);
    let m2 = autoscript_step(m1, package, script, second)->0;
    lemma_text_of_encoded(merged(mid, script, second));
    assert(gathered(m2, key) == encode_utf8(merged(mid, script, second)));
    if is_teardown(script) {
        assert(second + (first + before) =~= second + first + before);
    } else {
        assert((before + first) + second =~= before + first + second);
    }
}

// ---------------------------------------------------------------------------
// Merging into the maintainer scripts
// ---------------------------------------------------------------------------

/// The place in a maintainer script of the user where the gathered
/// fragments go.
pub open spec fn debhelper_token() -> Seq<char> {
    "#DEBHELPER#"@
}

/// The head of a maintainer script that is made of fragments alone.
pub open spec fn shebang() -> Seq<char> {
    "#!/bin/sh\nset -e\n"@
}

/// How the merge for one script ends.
pub enum SubstOutcome {
    /// The fragments after the merge.
    Done(Map<Seq<char>, Seq<u8>>),
    /// What was gathered under this name is no UTF-8.
    BadFragment(Seq<char>),
    /// The user's script at this path is no UTF-8.
    BadUserScript(Seq<char>),
    /// The user's script at this path has no place for the fragments.
    MissingToken(Seq<char>),
}

/// The merge for `script`. Where the user has a script, the gathered text
/// takes the place of the token in it. Where there is none but something was
/// gathered, a script is made of it. The result stands under the script's
/// name.
pub open spec fn subst_outcome(
    tree: &FileTree,
    dir: Seq<char>,
    m: Map<Seq<char>, Seq<u8>>,
    package: Seq<char>,
    script: Seq<char>,
    unit_name: Option<Seq<char>>,
) -> SubstOutcome {
    let key = fragment_key(package, script);
    match first_file(tree, pkgfile_candidates(dir, package, package, script, unit_name)) {
        Some(path) => match text_of(gathered(m, key)) {
            None => SubstOutcome::BadFragment(key),
            Some(generated) => match tree.content(path) {
                None => SubstOutcome::BadUserScript(path),
                Some(bytes) => match text_of(bytes) {
                    None => SubstOutcome::BadUserScript(path),
                    Some(user) => if contains_text(user, debhelper_token()) {
                        SubstOutcome::Done(
                            m.insert(
                                script,
                                encode_utf8(replace_all(user, debhelper_token(), generated)),
                            ),
                        )
                    } else {
                        SubstOutcome::MissingToken(path)
                    },
                },
            },
        },
        None => if m.contains_key(key) {
            match text_of(m[key]) {
                Some(generated) => SubstOutcome::Done(
                    m.insert(script, encode_utf8(shebang() + generated)),
                ),
                None => SubstOutcome::BadFragment(key),
            }
        } else {
            SubstOutcome::Done(m)
        },
    }
}

/// `r` is the error that stands for the outcome `o`, or success where the
/// merge was done.
pub open spec fn reports(r: CDResult<()>, o: SubstOutcome) -> bool {
    match o {
        SubstOutcome::Done(_) => r is Ok,
        SubstOutcome::BadFragment(k) => r matches Err(CargoDebError::InvalidUtf8(x)) && x@ == k,
        SubstOutcome::BadUserScript(p) => r matches Err(CargoDebError::InvalidUtf8(x)) && x@
            == p,
        SubstOutcome::MissingToken(p) => r matches Err(CargoDebError::DebHelperReplaceFailed(x))
            && x@ == p,
    }
}

/// The fragments that an outcome leaves: those of the merge where it was
/// done, else those from before.
pub open spec fn left_by(o: SubstOutcome, before: Map<Seq<char>, Seq<u8>>) -> Map<
    Seq<char>,
    Seq<u8>,
> {
    match o {
        SubstOutcome::Done(m) => m,
        _ => before,
    }
}

/// Merges what was gathered for `script` into the maintainer script of that
/// name: into the user's script where `user_scripts_dir` holds one, else
/// into a new one.
pub fn debhelper_script_subst<L: Listener + ?Sized>(
    files: &FileTree,
    user_scripts_dir: &str,
    scripts: &mut ScriptFragments,
    package: &str,
    script: &str,
    unit_name: Option<&str>,
    listener: &mut L,
) -> (r: CDResult<()>)
    requires
        old(scripts).wf(),
    ensures
        final(scripts).wf(),
        reports(
            r,
            subst_outcome(
                files,
                user_scripts_dir@,
                old(scripts)@,
                package@,
                script@,
                opt_text(unit_name),
            ),
        ),
        final(scripts)@ == left_by(
            subst_outcome(
                files,
                user_scripts_dir@,
                old(scripts)@,
                package@,
                script@,
                opt_text(unit_name),
            ),
            old(scripts)@,
        ),
{
    let user_file = pkgfile(files, user_scripts_dir, package, package, script, unit_name);
    let generated_file_name = fragment_key_of(package, script);
    match user_file {
        Some(user_file_path) => {
            let mut msg = chars_of("Augmenting maintainer script ");
            append_str(&mut msg, user_file_path.as_str());
            listener.info(string_of(&msg));
            let generated = match gathered_text(scripts, generated_file_name.as_str()) {
                Some(t) => t,
                None => {
                    return Err(CargoDebError::InvalidUtf8(generated_file_name));
                },
            };
            let user = match files.read(user_file_path.as_str()) {
                Some(bytes) => match decode(bytes) {
                    Some(t) => t,
                    None => {
                        return Err(CargoDebError::InvalidUtf8(user_file_path));
                    },
                },
                None => {
                    return Err(CargoDebError::InvalidUtf8(user_file_path));
                },
            };
            let tok = chars_of("#DEBHELPER#");
            if !contains(&user, &tok) {
                return Err(CargoDebError::DebHelperReplaceFailed(user_file_path));
            }
            let new_text = replace(&user, &tok, &generated);
            scripts.insert(script, encode(&new_text));
            Ok(())
        },
        None => {
            if scripts.contains_key(generated_file_name.as_str()) {
                let generated = match gathered_text(scripts, generated_file_name.as_str()) {
                    Some(t) => t,
                    None => {
                        return Err(CargoDebError::InvalidUtf8(generated_file_name));
                    },
                };
                let mut msg = chars_of("Generating maintainer script ");
                append_str(&mut msg, script);
                listener.info(string_of(&msg));
                let mut new_text = chars_of("#!/bin/sh\nset -e\n");
                append_copy(&mut new_text, &generated);
                scripts.insert(script, encode(&new_text));
            }
            Ok(())
        },
    }
}

/// One more merge behind those that led to `state`, unless one of them failed.
pub open spec fn then_subst(
    state: (Map<Seq<char>, Seq<u8>>, Option<SubstOutcome>),
    tree: &FileTree,
    dir: Seq<char>,
    package: Seq<char>,
    script: Seq<char>,
    unit_name: Option<Seq<char>>,
) -> (Map<Seq<char>, Seq<u8>>, Option<SubstOutcome>) {
    if state.1 is Some {
        state
    } else {
        match subst_outcome(tree, dir, state.0, package, script, unit_name) {
            SubstOutcome::Done(m) => (m, None),
            failed => (state.0, Some(failed)),
        }
    }
}

/// The merges for `postinst`, `preinst`, `prerm` and `postrm`, in this
/// order, up to the first that fails: the fragments they leave, and the
/// failure if there was one.
pub open spec fn apply_outcome(
    tree: &FileTree,
    dir: Seq<char>,
    m: Map<Seq<char>, Seq<u8>>,
    package: Seq<char>,
    unit_name: Option<Seq<char>>,
) -> (Map<Seq<char>, Seq<u8>>, Option<SubstOutcome>) {
    let s1 = then_subst((m, None), tree, dir, package, "postinst"@, unit_name);
    let s2 = then_subst(s1, tree, dir, package, "preinst"@, unit_name);
    let s3 = then_subst(s2, tree, dir, package, "prerm"@, unit_name);
    then_subst(s3, tree, dir, package, "postrm"@, unit_name)
}

/// Makes the final maintainer scripts: merges what was gathered with the
/// scripts that the user keeps in `user_scripts_dir`.
pub fn apply<L: Listener + ?Sized>(
    files: &FileTree,
    user_scripts_dir: &str,
    scripts: &mut ScriptFragments,
    package: &str,
    unit_name: Option<&str>,
    listener: &mut L,
) -> (r: CDResult<()>)
    requires
        old(scripts).wf(),
    ensures
        final(scripts).wf(),
        final(scripts)@ == apply_outcome(
            files,
            user_scripts_dir@,
            old(scripts)@,
            package@,
            opt_text(unit_name),
        ).0,
        match apply_outcome(
            files,
            user_scripts_dir@,
            old(scripts)@,
            package@,
            opt_text(unit_name),
        ).1 {
            Some(failed) => !(failed is Done) && reports(r, failed),
            None => r is Ok,
        },
{
    match debhelper_script_subst(
        files,
        user_scripts_dir,
        scripts,
        package,
        "postinst",
        unit_name,
        listener,
    ) {
        Err(e) => {
            return Err(e);
        },
        Ok(_) => {},
    }
    match debhelper_script_subst(
        files,
        user_scripts_dir,
        scripts,
        package,
        "preinst",
        unit_name,
        listener,
    ) {
        Err(e) => {
            return Err(e);
        },
        Ok(_) => {},
    }
    match debhelper_script_subst(
        files,
        user_scripts_dir,
        scripts,
        package,
        "prerm",
        unit_name,
        listener,
    ) {
        Err(e) => {
            return Err(e);
        },
        Ok(_) => {},
    }
    debhelper_script_subst(files, user_scripts_dir, scripts, package, "postrm", unit_name, listener)
}

} // verus!
