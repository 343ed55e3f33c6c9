//! Breaking a text into lines word by word.

use crate::text::strs;
use crate::text::{append_copy, chars_of, copy_of, is_space, is_whitespace, string_of, views};
use crate::wordsplit::{byte_len, utf8_len};
use vstd::prelude::*;

verus! {

/// The words of a text: what stands between white space.
pub open spec fn words_of(s: Seq<char>) -> Seq<Seq<char>>
    decreases s.len(),
{
    if s.len() == 0 {
        Seq::empty()
    } else if is_space(s.last()) {
        words_of(s.drop_last())
    } else if s.len() == 1 || is_space(s[s.len() - 2]) {
        words_of(s.drop_last()).push(seq![s.last()])
    } else {
        let before = words_of(s.drop_last());
        before.drop_last().push(before.last().push(s.last()))
    }
}

/// The lines that `words` fill, going on from the line `cur`, which holds
/// `chars` bytes so far: the lines that get full, and the line that is
/// left. A word that brings the line to `length` bytes or more ends it and
/// begins the next one; the first word that does not begins the line anew.
pub open spec fn lined(
    words: Seq<Seq<char>>,
    cur: Seq<char>,
    chars: nat,
    started: bool,
    length: nat,
) -> (Seq<Seq<char>>, Seq<char>)
    decreases words.len(),
{
    if words.len() == 0 {
        (Seq::empty(), cur)
    } else {
        let w = words[0];
        if chars + utf8_len(w) >= length {
            let rest = lined(words.skip(1), w, utf8_len(w), started, length);
            (seq![cur] + rest.0, rest.1)
        } else if !started {
            lined(words.skip(1), w, utf8_len(w), true, length)
        } else {
            lined(words.skip(1), cur + seq![' '] + w, chars + utf8_len(w) + 1, true, length)
        }
    }
}

/// The lines of a text that is broken word by word.
pub open spec fn char_split(s: Seq<char>, length: nat) -> Seq<Seq<char>> {
    let f = lined(words_of(s), Seq::empty(), 0, false, length);
    if f.1.len() == 0 {
        f.0
    } else {
        f.0.push(f.1)
    }
}

pub trait CharSplit {
    fn split_by_chars(&self, length: usize) -> Vec<String>;
}

fn words(s: &Vec<char>) -> (r: Vec<Vec<char>>)
    ensures
        views(r@) == words_of(s@),
        forall|i: int| 0 <= i < r@.len() ==> (#[trigger] r@[i])@.len() > 0,
{
    let mut out: Vec<Vec<char>> = Vec::new();
    let mut i: usize = 0;
    assert(s@.take(0) =~= Seq::<char>::empty());
    assert(views(out@) =~= words_of(s@.take(0)));
    while i < s.len()
        invariant
            i <= s.len(),
            views(out@) == words_of(s@.take(i as int)),
            forall|k: int| 0 <= k < out@.len() ==> (#[trigger] out@[k])@.len() > 0,
            i > 0 && !is_space(s@[i - 1]) ==> out@.len() > 0,
        decreases s.len() - i,
    {
        let ghost before = views(out@);
        proof {
            let next = s@.take(i + 1);
            assert(next.drop_last() == s@.take(i as int));
            assert(next.last() == s@[i as int]);
            if i > 0 {
                assert(next[next.len() - 2] == s@[i - 1]);
            }
        }
        let c = s[i];
        if !is_whitespace(c) {
            if i == 0 || is_whitespace(s[i - 1]) {
                let mut w: Vec<char> = Vec::new();
                w.push(c);
                assert(w@ =~= seq![c]);
                out.push(w);
                assert(views(out@) =~= before.push(seq![c]));
            } else {
                let mut w = out.pop().unwrap();
                w.push(c);
                out.push(w);
                assert(views(out@) =~= before.drop_last().push(before.last().push(c)));
            }
        }
        i += 1;
    }
    assert(s@.take(s.len() as int) == s@);
    out
}

impl CharSplit for String {
    /// Breaks the text into lines of words, each word once. A line ends
    /// before the word that would bring it to `length` bytes.
    fn split_by_chars(&self, length: usize) -> (r: Vec<String>)
        ensures
            strs(r@) == char_split(self@, length as nat),
    {
        let ws = words(&chars_of(self.as_str()));
        let ghost all = views(ws@);
        let ghost whole = lined(all, Seq::empty(), 0, false, length as nat);
        let mut lines: Vec<String> = Vec::new();
        let mut current_line: Vec<char> = Vec::new();
        let mut chars: u128 = 0;
        let mut initialized = false;
        let mut k: usize = 0;
        let ghost mut done: Seq<Seq<char>> = Seq::empty();
        assert(all.skip(0) == all);
        assert(done + whole.0 =~= whole.0);
        assert(strs(lines@) =~= done);
        while k < ws.len()
            invariant
                k <= ws.len(),
                all == views(ws@),
                strs(lines@) == done,
                chars <= 4 * usize::MAX + 1,
                done + lined(
                    all.skip(k as int),
                    current_line@,
                    chars as nat,
                    initialized,
                    length as nat,
                ).0 == whole.0,
                lined(
                    all.skip(k as int),
                    current_line@,
                    chars as nat,
                    initialized,
                    length as nat,
                ).1 == whole.1,
            decreases ws.len() - k,
        {
            let word = &ws[k];
            let ghost rest = all.skip(k as int);
            let ghost cur = current_line@;
            proof {
                assert(rest[0] == word@);
                assert(rest.skip(1) == all.skip(k + 1));
            }
            let word_chars = word.len();
            let wl = byte_len(word);
            assert(wl <= 4 * word_chars);
            if chars + wl >= length as u128 {
                // if character length met or exceeded
                let ghost before = strs(lines@);
                lines.push(string_of(&current_line));
                current_line = copy_of(word);
                chars = wl;
                proof {
                    let next = lined(rest.skip(1), word@, wl as nat, initialized, length as nat);
                    assert(strs(lines@) =~= before.push(cur));
                    assert(done + (seq![cur] + next.0) =~= done.push(cur) + next.0);
                    done = done.push(cur);
                }
            } else if !initialized {
                current_line = copy_of(word);
                chars = wl;
                initialized = true;
            } else {
                current_line.push(' ');
                append_copy(&mut current_line, word);
                chars = chars + wl + 1;
                assert(current_line@ =~= cur + seq![' '] + word@);
            }
            k += 1;
        }
        assert(all.skip(ws.len() as int).len() == 0);
        assert(done + Seq::<Seq<char>>::empty() =~= done);
        if current_line.len() > 0 {
            let ghost before = strs(lines@);
            lines.push(string_of(&current_line));
            assert(strs(lines@) =~= before.push(current_line@));
        }
        lines
    }
}

} // verus!
