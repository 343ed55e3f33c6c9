//! Breaking a description into the lines of a control file.

use crate::text::strs;
use crate::text::{
    all_space, chars_of, copy_of, is_blank, lines, lines_of, split, split_on, string_of, views,
};
use vstd::prelude::*;

verus! {

/// The number of bytes that `c` takes in UTF-8.
pub open spec fn utf8_width(c: char) -> nat {
    let n = c as u32;
    if n < 0x80 {
        1
    } else if n < 0x800 {
        2
    } else if n < 0x10000 {
        3
    } else {
        4
    }
}

/// The number of bytes that `s` takes in UTF-8.
pub open spec fn utf8_len(s: Seq<char>) -> nat
    decreases s.len(),
{
    if s.len() == 0 {
        0
    } else {
        utf8_len(s.drop_last()) + utf8_width(s.last())
    }
}

/// `s` with a space in place of every tab.
pub open spec fn untabbed(s: Seq<char>) -> Seq<char> {
    Seq::new(
        s.len(),
        |i: int|
            if s[i] == '\t' {
                ' '
            } else {
                s[i]
            },
    )
}

/// The line `cur` with `word` behind it, after a space unless it is the first
/// word of the line.
pub open spec fn with_word(cur: Seq<char>, started: bool, word: Seq<char>) -> Seq<char> {
    if started {
        cur + seq![' '] + word
    } else {
        cur + word
    }
}

/// Fills lines with `words`, going on from the line `cur`: the lines that
/// get full, and the line that is left. A word goes onto the line as long as
/// the line holds white space only, or stays under `length` bytes with the
/// word; else the line is full and the word begins the next one.
pub open spec fn filled(words: Seq<Seq<char>>, cur: Seq<char>, started: bool, length: nat) -> (
    Seq<Seq<char>>,
    Seq<char>,
)
    decreases words.len(),
{
    if words.len() == 0 {
        (Seq::empty(), cur)
    } else if all_space(cur) || utf8_len(cur) + utf8_len(words[0]) < length {
        filled(words.skip(1), with_word(cur, started, words[0]), true, length)
    } else {
        let rest = filled(words.skip(1), words[0], true, length);
        (seq![cur] + rest.0, rest.1)
    }
}

/// A line that holds white space only stands as a single dot.
pub open spec fn or_dot(line: Seq<char>) -> Seq<char> {
    if all_space(line) {
        seq!['.']
    } else {
        line
    }
}

/// The lines that one line of the text is broken into. The words are what
/// stands between single spaces.
pub open spec fn wrapped(line: Seq<char>, length: nat) -> Seq<Seq<char>> {
    let l = untabbed(line);
    if all_space(l) {
        seq![seq!['.']]
    } else {
        let f = filled(split_on(l, ' '), Seq::empty(), false, length);
        f.0.push(or_dot(f.1))
    }
}

/// Each of `lines` broken into lines, all in their order.
pub open spec fn wrapped_all(lines: Seq<Seq<char>>, length: nat) -> Seq<Seq<char>>
    decreases lines.len(),
{
    if lines.len() == 0 {
        Seq::empty()
    } else {
        wrapped_all(lines.drop_last(), length) + wrapped(lines.last(), length)
    }
}

pub trait WordSplit {
    fn split_by_chars(&self, length: usize) -> Vec<String>;
}

/// The number of bytes that `s` takes in UTF-8.
pub fn byte_len(s: &Vec<char>) -> (n: u128)
    ensures
        n == utf8_len(s@),
        n <= 4 * s@.len(),
{
    let mut n: u128 = 0;
    let mut i: usize = 0;
    assert(s@.take(0) =~= Seq::<char>::empty());
    while i < s.len()
        invariant
            i <= s.len(),
            n == utf8_len(s@.take(i as int)),
            n <= 4 * i,
        decreases s.len() - i,
    {
        proof {
            let next = s@.take(i + 1);
            assert(next.drop_last() == s@.take(i as int));
            assert(next.last() == s@[i as int]);
        }
        let c: u32 = s[i] as u32;
        let w: u128 = if c < 0x80 {
            1
        } else if c < 0x800 {
            2
        } else if c < 0x10000 {
            3
        } else {
            4
        };
        n = n + w;
        i += 1;
    }
    assert(s@.take(s.len() as int) == s@);
    n
}

fn untab(s: &Vec<char>) -> (r: Vec<char>)
    ensures
        r@ == untabbed(s@),
{
    let mut r: Vec<char> = Vec::new();
    let mut i: usize = 0;
    while i < s.len()
        invariant
            i <= s.len(),
            r@.len() == i,
            forall|j: int| 0 <= j < i ==> r@[j] == untabbed(s@)[j],
        decreases s.len() - i,
    {
        if s[i] == '\t' {
            r.push(' ');
        } else {
            r.push(s[i]);
        }
        i += 1;
    }
    assert(r@ =~= untabbed(s@));
    r
}

fn wrap(line: &Vec<char>, length: usize, out: &mut Vec<String>)
    ensures
        strs(final(out)@) == strs(old(out)@) + wrapped(line@, length as nat),
{
    let ghost out0 = strs(out@);
    let l = untab(line);
    if is_blank(&l) {
        out.push(".".to_owned());
        proof {
            reveal_strlit(".");
            assert("."@ =~= seq!['.']);
            assert(strs(out@) =~= out0 + wrapped(line@, length as nat));
        }
        return ;
    }
    let words = split(&l, ' ');
    let ghost ws = views(words@);
    let ghost whole = filled(ws, Seq::empty(), false, length as nat);
    let mut current_line: Vec<char> = Vec::new();
    let mut initialized = false;
    let mut k: usize = 0;
    let ghost mut done: Seq<Seq<char>> = Seq::empty();
    assert(ws.skip(0) == ws);
    assert(done + whole.0 =~= whole.0);
    while k < words.len()
        invariant
            k <= words.len(),
            ws == views(words@),
            strs(out@) == out0 + done,
            done + filled(ws.skip(k as int), current_line@, initialized, length as nat).0
                == whole.0,
            filled(ws.skip(k as int), current_line@, initialized, length as nat).1 == whole.1,
            !initialized ==> current_line@.len() == 0,
        decreases words.len() - k,
    {
        let word = &words[k];
        let ghost rest = ws.skip(k as int);
        let ghost cur = current_line@;
        proof {
            assert(rest[0] == word@);
            assert(rest.skip(1) == ws.skip(k + 1));
        }
        let n1 = current_line.len();
        let n2 = word.len();
        let a = byte_len(&current_line);
        let b = byte_len(word);
        assert(a + b <= 8 * usize::MAX);
        let goes_on = is_blank(&current_line) || a + b < length as u128;
        assert(goes_on == (all_space(cur) || utf8_len(cur) + utf8_len(rest[0]) < length as nat));
        if goes_on {
            let ghost was = initialized;
            if initialized {
                current_line.push(' ');
            }
            initialized = true;
            crate::text::append_copy(&mut current_line, word);
            assert(current_line@ =~= with_word(cur, was, word@));
            assert(filled(rest, cur, was, length as nat) == filled(
                rest.skip(1),
                with_word(cur, was, rest[0]),
                true,
                length as nat,
            ));
        } else {
            let ghost before = strs(out@);
            out.push(string_of(&current_line));
            current_line = copy_of(word);
            proof {
                assert(initialized);
                assert(strs(out@) =~= before.push(cur));
                let next = filled(rest.skip(1), word@, true, length as nat);
                assert(filled(rest, cur, true, length as nat) == (seq![cur] + next.0, next.1));
                assert(done + (seq![cur] + next.0) =~= done.push(cur) + next.0);
                done = done.push(cur);
                assert(out0 + done =~= before.push(cur));
            }
        }
        k += 1;
    }
    assert(ws.skip(words.len() as int).len() == 0);
    assert(done + Seq::<Seq<char>>::empty() =~= done);
    let ghost before = strs(out@);
    if is_blank(&current_line) {
        out.push(".".to_owned());
        proof {
            reveal_strlit(".");
            assert("."@ =~= seq!['.']);
        }
    } else {
        out.push(string_of(&current_line));
    }
    assert(strs(out@) =~= before.push(or_dot(whole.1)));
    assert(out0 + whole.0.push(or_dot(whole.1)) =~= (out0 + whole.0).push(or_dot(whole.1)));
}

impl WordSplit for str {
    /// Breaks the text into lines for the description of a package. Every
    /// line of the text gives at least one line. A line holds as many words
    /// as stay under `length` bytes, a tab counts as a space, and a line
    /// without a visible character becomes a single dot.
    fn split_by_chars(&self, length: usize) -> (r: Vec<String>)
        ensures
            strs(r@) == wrapped_all(lines_of(self@), length as nat),
    {
        let text = chars_of(self);
        let all = lines(&text);
        let ghost ls = lines_of(self@);
        let mut out: Vec<String> = Vec::new();
        let mut i: usize = 0;
        assert(strs(out@) =~= wrapped_all(ls.take(0), length as nat));
        while i < all.len()
            invariant
                i <= all.len(),
                views(all@) == ls,
                strs(out@) == wrapped_all(ls.take(i as int), length as nat),
            decreases all.len() - i,
        {
            proof {
                let next = ls.take(i + 1);
                assert(next.drop_last() == ls.take(i as int));
                assert(next.last() == all@[i as int]@);
            }
            wrap(&all[i], length, &mut out);
            i += 1;
        }
        assert(ls.take(all.len() as int) == ls);
        out
    }
}

} // verus!
